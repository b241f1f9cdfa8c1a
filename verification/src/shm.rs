//! Layout of the shared-memory regions that follow guest RAM.

use std::collections::BTreeMap;

use vm_memory::FileOffset;
use vstd::prelude::*;

use crate::align::align_upwards;

verus! {

/// Why a region could not be created.
#[derive(Debug)]
pub enum Error {
    ConduitShmCreate(std::io::Error),
    DuplicatedConduitRegion,
    DuplicatedGpuRegion,
    OutOfSpace,
}

/// A guest physical address.
#[derive(Clone, Copy, Debug, PartialEq, Eq, Structural)]
pub struct GuestAddress(pub u64);

/// What the layout needs to know of the machine.
#[derive(Clone, Copy, Debug)]
pub struct ArchMemoryInfo {
    /// First guest physical address that shared-memory regions may use.
    pub shm_start_addr: u64,
    /// Page size in bytes.
    pub page_size: usize,
}

/// One shared-memory region of the guest.
pub struct ShmRegion {
    pub guest_addr: GuestAddress,
    pub size: usize,
    pub file_offset: Option<FileOffset>,
    pub host_name: Option<String>,
}

impl Clone for ShmRegion {
    fn clone(&self) -> (copy: Self)
        ensures
            copy == *self,
    {
        ShmRegion {
            guest_addr: self.guest_addr,
            size: self.size,
            file_offset: clone_file_offset(&self.file_offset),
            host_name: match &self.host_name {
                Some(name) => Some(name.clone()),
                None => None,
            },
        }
    }
}

impl ShmRegion {
    /// First address of the region.
    pub open spec fn start(self) -> int {
        self.guest_addr.0 as int
    }

    /// First address past the region.
    pub open spec fn end(self) -> int {
        self.guest_addr.0 + self.size
    }
}

/// No address belongs to both regions.
pub open spec fn regions_disjoint(a: ShmRegion, b: ShmRegion) -> bool {
    a.end() <= b.start() || b.end() <= a.start()
}

/// The purposes that a region can serve.
pub enum Slot {
    Fs(usize),
    Conduit,
    Gpu,
}

/// What a `ShmManager` stands for.
#[verifier::ext_equal]
pub struct ShmLayout {
    /// Where the first region was or will be placed.
    pub start_addr: u64,
    /// Where the next region will be placed.
    pub next_guest_addr: u64,
    pub page_size: usize,
    pub conduit: Option<ShmRegion>,
    pub fs: Map<usize, ShmRegion>,
    pub gpu: Option<ShmRegion>,
}

impl ShmLayout {
    /// The region that serves a purpose.
    pub open spec fn at(self, slot: Slot) -> Option<ShmRegion> {
        match slot {
            Slot::Fs(index) => if self.fs.contains_key(index) {
                Some(self.fs[index])
            } else {
                None
            },
            Slot::Conduit => self.conduit,
            Slot::Gpu => self.gpu,
        }
    }

    /// A request of `size` bytes can be rounded up to whole pages.
    pub open spec fn can_round(self, size: usize) -> bool {
        &&& crate::align::is_power_of_two(self.page_size as int)
        &&& size + self.page_size - 1 <= usize::MAX
    }

    /// `size` in whole pages.
    pub open spec fn rounded(self, size: usize) -> int {
        crate::align::aligned_up(size as int, self.page_size as int)
    }

    /// There is room for `size` more bytes below the end of the address space.
    pub open spec fn fits(self, size: usize) -> bool {
        self.next_guest_addr + self.rounded(size) <= u64::MAX
    }

    /// The region that a request of `size` bytes is given.
    pub open spec fn carved(self, size: usize) -> ShmRegion {
        ShmRegion {
            guest_addr: GuestAddress(self.next_guest_addr),
            size: self.rounded(size) as usize,
            file_offset: None,
            host_name: None,
        }
    }

    /// The layout once the addresses of `carved(size)` are spoken for.
    pub open spec fn advanced(self, size: usize) -> ShmLayout {
        ShmLayout {
            next_guest_addr: (self.next_guest_addr + self.rounded(size)) as u64,
            ..self
        }
    }

    /// The layout in which `region` serves a purpose.
    pub open spec fn with(self, slot: Slot, region: ShmRegion) -> ShmLayout {
        match slot {
            Slot::Fs(index) => ShmLayout { fs: self.fs.insert(index, region), ..self },
            Slot::Conduit => ShmLayout { conduit: Some(region), ..self },
            Slot::Gpu => ShmLayout { gpu: Some(region), ..self },
        }
    }

    /// Every region lies between the start and the next free address, is made of
    /// whole pages, and shares no address with another one. The conduit's region has
    /// a file and a name, and no other region has either.
    pub open spec fn wf(self) -> bool {
        &&& self.fs.dom().finite()
        &&& self.start_addr <= self.next_guest_addr
        &&& forall|slot: Slot|
            (#[trigger] self.at(slot)) matches Some(region) ==> {
                &&& self.start_addr <= region.start()
                &&& region.end() <= self.next_guest_addr
                &&& self.page_size >= 1
                &&& region.size % self.page_size == 0
                &&& (region.start() - self.start_addr) % (self.page_size as int) == 0
                &&& region.file_offset is Some <==> slot is Conduit
                &&& region.host_name is Some <==> slot is Conduit
            }
        &&& self.page_size >= 1 ==> (self.next_guest_addr - self.start_addr) % (
        self.page_size as int) == 0
        &&& forall|a: Slot, b: Slot|
            a != b && (#[trigger] self.at(a)) is Some && (#[trigger] self.at(b)) is Some
                ==> regions_disjoint(self.at(a)->0, self.at(b)->0)
    }
}

/// What `ShmManager::regions` tells of one region.
pub open spec fn listed(region: ShmRegion) -> (GuestAddress, usize, Option<FileOffset>) {
    (region.guest_addr, region.size, region.file_offset)
}

/// The entry for a region that may be missing.
pub open spec fn listed_if_any(region: Option<ShmRegion>) -> Seq<
    (GuestAddress, usize, Option<FileOffset>),
> {
    match region {
        Some(r) => seq![listed(r)],
        None => seq![],
    }
}

/// `keys` holds every key of `map` once, in ascending order.
pub open spec fn is_key_order(keys: Seq<usize>, map: Map<usize, ShmRegion>) -> bool {
    &&& forall|i: int, j: int| 0 <= i < j < keys.len() ==> keys[i] < keys[j]
    &&& forall|k: usize| #[trigger] keys.contains(k) <==> map.contains_key(k)
}

/// The keys of `map` in ascending order.
pub open spec fn key_order(map: Map<usize, ShmRegion>) -> Seq<usize> {
    choose|keys: Seq<usize>| is_key_order(keys, map)
}

impl ShmLayout {
    /// All regions: those of file systems by ascending index, then the conduit's,
    /// then the GPU's.
    pub open spec fn listing(self) -> Seq<(GuestAddress, usize, Option<FileOffset>)> {
        key_order(self.fs).map_values(|k: usize| listed(self.fs[k])) + listed_if_any(self.conduit)
            + listed_if_any(self.gpu)
    }
}

/// There is only one ascending order of a map's keys.
proof fn lemma_key_order_unique(s: Seq<usize>, t: Seq<usize>)
    requires
        forall|i: int, j: int| 0 <= i < j < s.len() ==> s[i] < s[j],
        forall|i: int, j: int| 0 <= i < j < t.len() ==> t[i] < t[j],
        forall|k: usize| #[trigger] s.contains(k) <==> t.contains(k),
    ensures
        s == t,
    decreases s.len(),
{
    if s.len() == 0 {
        if t.len() > 0 {
            assert(t.contains(t[0]));
            assert(s.contains(t[0]));
        }
    } else {
        assert(s.contains(s.last()));
        let j = choose|j: int| 0 <= j < t.len() && t[j] == s.last();
        assert(t.contains(t.last()));
        assert(s.contains(t.last()));
        let i = choose|i: int| 0 <= i < s.len() && s[i] == t.last();
        assert(s.last() == t.last());
        let s1 = s.drop_last();
        let t1 = t.drop_last();
        assert forall|k: usize| #[trigger] s1.contains(k) <==> t1.contains(k) by {
            if s1.contains(k) {
                let a = choose|a: int| 0 <= a < s1.len() && s1[a] == k;
                assert(s[a] == k);
                assert(s.contains(k));
                let b = choose|b: int| 0 <= b < t.len() && t[b] == k;
                assert(t1[b] == k);
            }
            if t1.contains(k) {
                let a = choose|a: int| 0 <= a < t1.len() && t1[a] == k;
                assert(t[a] == k);
                assert(t.contains(k) && s.contains(k));
                let b = choose|b: int| 0 <= b < s.len() && s[b] == k;
                assert(s1[b] == k);
            }
        }
        lemma_key_order_unique(s1, t1);
        assert(s =~= s1.push(s.last()));
        assert(t =~= t1.push(t.last()));
    }
}

/// The order in which file systems are listed is the ascending one of their indices,
/// each of which occurs in it once.
pub proof fn law_key_order_is_ascending(map: Map<usize, ShmRegion>)
    requires
        map.dom().finite(),
    ensures
        is_key_order(key_order(map), map),
    decreases map.dom().len(),
{
    if map.dom().len() == 0 {
        assert(is_key_order(Seq::empty(), map));
    } else {
        let leq = |a: usize, b: usize| a <= b;
        let last = map.dom().find_unique_maximal(leq);
        map.dom().find_unique_maximal_ensures(leq);
        let rest = map.remove(last);
        assert(rest.dom() =~= map.dom().remove(last));
        law_key_order_is_ascending(rest);
        let keys = key_order(rest);
        let all = keys.push(last);
        assert forall|i: int, j: int| 0 <= i < j < all.len() implies all[i] < all[j] by {
            assert(keys.contains(keys[i]));
            assert(map.dom().contains(all[i]));
            if j == keys.len() {
                assert(leq(last, all[i]) ==> leq(all[i], last));
            }
        }
        assert forall|k: usize| #[trigger] all.contains(k) <==> map.contains_key(k) by {
            if map.contains_key(k) {
                if k == last {
                    assert(all[keys.len() as int] == k);
                } else {
                    assert(keys.contains(k));
                    let i = choose|i: int| 0 <= i < keys.len() && keys[i] == k;
                    assert(all[i] == k);
                }
            }
            if all.contains(k) {
                let i = choose|i: int| 0 <= i < all.len() && all[i] == k;
                if i < keys.len() {
                    assert(keys.contains(keys[i]));
                }
            }
        }
        assert(is_key_order(all, map));
    }
}

impl ShmLayout {
    /// The purpose behind the `i`th entry of the listing.
    pub open spec fn listed_slot(self, i: int) -> Slot {
        let fs_len = key_order(self.fs).len();
        if i < fs_len {
            Slot::Fs(key_order(self.fs)[i])
        } else if i == fs_len && self.conduit is Some {
            Slot::Conduit
        } else {
            Slot::Gpu
        }
    }
}

/// No address is ever handed out for two purposes.
pub proof fn law_regions_never_overlap(layout: ShmLayout, a: Slot, b: Slot)
    requires
        layout.wf(),
        a != b,
        layout.at(a) is Some,
        layout.at(b) is Some,
    ensures
        regions_disjoint(layout.at(a)->0, layout.at(b)->0),
{
}

/// A region that was created is found where it was put, with whole pages that hold
/// what was asked for; the regions that serve other purposes are as they were.
pub proof fn law_created_region_is_found(
    layout: ShmLayout,
    size: usize,
    slot: Slot,
    other: Slot,
    region: ShmRegion,
)
    requires
        layout.wf(),
        layout.can_round(size),
        layout.fits(size),
        region.guest_addr == layout.carved(size).guest_addr,
        region.size == layout.carved(size).size,
        region.file_offset is Some <==> slot is Conduit,
        region.host_name is Some <==> slot is Conduit,
    ensures
        ({
            let created = layout.advanced(size).with(slot, region);
            &&& created.wf()
            &&& created.at(slot) == Some(region)
            &&& other != slot ==> created.at(other) == layout.at(other)
            &&& region.size >= size
            &&& region.size < size + layout.page_size
            &&& region.end() == created.next_guest_addr
        }),
{
    lemma_placed_wf(layout, size, slot, region);
    lemma_advanced_wf(layout, size);
    crate::align::law_aligned_up_is_least_multiple(size as int, layout.page_size as int);
}

/// Addresses are handed out once: a new region lies above every region there is, and
/// the next address to be handed out never goes back, so it also lies above those
/// that were forgotten.
pub proof fn law_addresses_are_not_reused(layout: ShmLayout, slot: Slot, size: usize)
    requires
        layout.wf(),
        layout.can_round(size),
        layout.fits(size),
    ensures
        layout.at(slot) is Some ==> (layout.at(slot)->0).end() <= layout.carved(size).start(),
        layout.next_guest_addr <= layout.advanced(size).next_guest_addr,
        layout.carved(size).start() == layout.next_guest_addr,
        layout.carved(size).end() == layout.advanced(size).next_guest_addr,
{
    lemma_advanced_wf(layout, size);
}

/// Regions are handed out back to back: whatever was refused in between, the next one
/// starts where the last one ends.
pub proof fn law_regions_are_back_to_back(layout: ShmLayout, first: usize, second: usize)
    requires
        layout.wf(),
        layout.can_round(first),
        layout.fits(first),
    ensures
        layout.advanced(first).carved(second).start() == layout.carved(first).end(),
{
    lemma_advanced_wf(layout, first);
}

/// When the start address is on a page boundary, so is every region, and every
/// region is made of whole pages.
pub proof fn law_regions_are_page_aligned(layout: ShmLayout, slot: Slot)
    requires
        layout.wf(),
        layout.at(slot) is Some,
        layout.start_addr % (layout.page_size as u64) == 0,
    ensures
        (layout.at(slot)->0).start() % (layout.page_size as int) == 0,
        (layout.at(slot)->0).end() % (layout.page_size as int) == 0,
{
    let region = layout.at(slot)->0;
    let page = layout.page_size as int;
    lemma_sum_of_multiples(region.start() - layout.start_addr, layout.start_addr as int, page);
    lemma_sum_of_multiples(region.start(), region.size as int, page);
}

/// The listing has one entry for each region, and no other entries.
pub proof fn law_listing_is_all_regions(layout: ShmLayout)
    requires
        layout.wf(),
    ensures
        forall|i: int|
            0 <= i < layout.listing().len() ==> {
                &&& layout.at(#[trigger] layout.listed_slot(i)) is Some
                &&& layout.listing()[i] == listed(layout.at(layout.listed_slot(i))->0)
            },
        forall|i: int, j: int|
            0 <= i < j < layout.listing().len() ==> #[trigger] layout.listed_slot(i)
                != #[trigger] layout.listed_slot(j),
        forall|slot: Slot|
            (#[trigger] layout.at(slot)) is Some ==> exists|i: int|
                0 <= i < layout.listing().len() && #[trigger] layout.listed_slot(i) == slot,
{
    law_key_order_is_ascending(layout.fs);
    let keys = key_order(layout.fs);
    assert forall|i: int| 0 <= i < layout.listing().len() implies {
        &&& layout.at(#[trigger] layout.listed_slot(i)) is Some
        &&& layout.listing()[i] == listed(layout.at(layout.listed_slot(i))->0)
    } by {
        if i < keys.len() {
            assert(keys.contains(keys[i]));
        }
    }
    assert forall|slot: Slot| (#[trigger] layout.at(slot)) is Some implies exists|i: int|
        0 <= i < layout.listing().len() && #[trigger] layout.listed_slot(i) == slot by {
        match slot {
            Slot::Fs(k) => {
                assert(keys.contains(k));
                let i = choose|i: int| 0 <= i < keys.len() && keys[i] == k;
                assert(layout.listed_slot(i) == slot);
            },
            Slot::Conduit => {
                assert(layout.listed_slot(keys.len() as int) == slot);
            },
            Slot::Gpu => {
                assert(layout.listed_slot(layout.listing().len() - 1) == slot);
            },
        }
    }
}

/// Only the conduit's region has a file and a name on the host.
pub proof fn law_only_the_conduit_is_backed(layout: ShmLayout, i: int)
    requires
        layout.wf(),
        0 <= i < layout.listing().len(),
    ensures
        layout.listing()[i].2 is Some <==> layout.listed_slot(i) is Conduit,
        (layout.at(layout.listed_slot(i))->0).host_name is Some <==> layout.listed_slot(
            i,
        ) is Conduit,
{
    law_listing_is_all_regions(layout);
    assert(layout.at(layout.listed_slot(i)) is Some);
}

/// Two entries of the listing never describe a common address.
pub proof fn law_listed_regions_never_overlap(layout: ShmLayout, i: int, j: int)
    requires
        layout.wf(),
        0 <= i < j < layout.listing().len(),
    ensures
        ({
            let a = layout.listing()[i];
            let b = layout.listing()[j];
            a.0.0 + a.1 <= b.0.0 || b.0.0 + b.1 <= a.0.0
        }),
{
    law_listing_is_all_regions(layout);
    law_regions_never_overlap(layout, layout.listed_slot(i), layout.listed_slot(j));
}

/// A request is refused for want of space just where the addresses handed out so far
/// and the whole pages that it takes, `m` bytes, would pass the end of the address
/// space. Otherwise it gets those pages, at the next address, and the address after
/// them is the next one; nothing else changes.
pub proof fn law_refused_only_without_room(layout: ShmLayout, size: usize, m: int)
    requires
        layout.page_size >= 1,
        size + layout.page_size - 1 <= usize::MAX,
        size <= m < size + layout.page_size,
        m % (layout.page_size as int) == 0,
    ensures
        layout.fits(size) <==> layout.next_guest_addr + m <= u64::MAX,
        layout.carved(size).guest_addr.0 == layout.next_guest_addr,
        layout.carved(size).size == m,
        layout.carved(size).file_offset is None,
        layout.carved(size).host_name is None,
        layout.fits(size) ==> layout.advanced(size).next_guest_addr == layout.next_guest_addr + m,
        layout.advanced(size).start_addr == layout.start_addr,
        layout.advanced(size).page_size == layout.page_size,
        layout.advanced(size).conduit == layout.conduit,
        layout.advanced(size).fs == layout.fs,
        layout.advanced(size).gpu == layout.gpu,
{
    crate::align::law_rounding_is_unique(size as int, layout.page_size as int, m);
}

/// A request that can be met is met with less than a page to spare, so of two requests
/// the larger one takes at least as much, and what fits stays what fits for a smaller
/// one.
pub proof fn law_smaller_requests_fit_too(layout: ShmLayout, small: usize, large: usize)
    requires
        layout.page_size >= 1,
        large + layout.page_size - 1 <= usize::MAX,
        small <= large,
        layout.fits(large),
    ensures
        layout.fits(small),
        layout.carved(small).size <= layout.carved(large).size,
{
    let page = layout.page_size as int;
    crate::align::law_aligned_up_is_least_multiple(small as int, page);
    crate::align::law_aligned_up_is_least_multiple(large as int, page);
    assert(layout.rounded(large) % page == 0);
}

/// Any request can be rounded to pages whose size is a power of two, unless that would
/// pass the largest size.
pub proof fn law_any_power_of_two_is_a_page_size(layout: ShmLayout, size: usize, k: nat)
    requires
        layout.page_size == vstd::arithmetic::power2::pow2(k),
        size + layout.page_size - 1 <= usize::MAX,
    ensures
        layout.can_round(size),
{
    crate::align::law_powers_of_two_are_accepted(k);
}

/// Giving a region to one purpose changes that purpose's region and nothing else.
pub proof fn law_one_purpose_at_a_time(layout: ShmLayout, index: usize, region: ShmRegion)
    ensures
        layout.with(Slot::Fs(index), region) == (ShmLayout {
            fs: layout.fs.insert(index, region),
            ..layout
        }),
        layout.with(Slot::Conduit, region) == (ShmLayout { conduit: Some(region), ..layout }),
        layout.with(Slot::Gpu, region) == (ShmLayout { gpu: Some(region), ..layout }),
        layout.at(Slot::Fs(index)) is Some <==> layout.fs.contains_key(index),
        layout.fs.contains_key(index) ==> layout.at(Slot::Fs(index)) == Some(layout.fs[index]),
        layout.at(Slot::Conduit) == layout.conduit,
        layout.at(Slot::Gpu) == layout.gpu,
{
}

/// The listing gives address, size and file of the file systems' regions by ascending
/// index, where `keys` are the indices in that order, then those of the conduit's and
/// then those of the GPU's.
pub proof fn law_listing_goes_by_index(layout: ShmLayout, keys: Seq<usize>)
    requires
        layout.fs.dom().finite(),
        forall|i: int, j: int| 0 <= i < j < keys.len() ==> keys[i] < keys[j],
        forall|k: usize| #[trigger] keys.contains(k) <==> layout.fs.contains_key(k),
    ensures
        ({
            let listing = layout.listing();
            let n = keys.len() as int;
            let c: int = if layout.conduit is Some {
                1
            } else {
                0
            };
            let g: int = if layout.gpu is Some {
                1
            } else {
                0
            };
            &&& listing.len() == n + c + g
            &&& forall|i: int|
                0 <= i < n ==> {
                    &&& (#[trigger] listing[i]).0 == layout.fs[keys[i]].guest_addr
                    &&& listing[i].1 == layout.fs[keys[i]].size
                    &&& listing[i].2 == layout.fs[keys[i]].file_offset
                }
            &&& layout.conduit matches Some(r) ==> {
                &&& listing[n].0 == r.guest_addr
                &&& listing[n].1 == r.size
                &&& listing[n].2 == r.file_offset
            }
            &&& layout.gpu matches Some(r) ==> {
                &&& listing[n + c].0 == r.guest_addr
                &&& listing[n + c].1 == r.size
                &&& listing[n + c].2 == r.file_offset
            }
        }),
{
    law_key_order_is_ascending(layout.fs);
    lemma_key_order_unique(keys, key_order(layout.fs));
}

/// What `create_region` and its callers say of the room that a request needs.
proof fn lemma_room(layout: ShmLayout, size: usize)
    requires
        layout.can_round(size),
    ensures
        layout.page_size >= 1,
        size <= layout.rounded(size) < size + layout.page_size,
        layout.rounded(size) % (layout.page_size as int) == 0,
        !layout.fits(size) ==> forall|m: int|
            size <= m < size + layout.page_size && #[trigger] (m % (layout.page_size as int)) == 0
                ==> layout.next_guest_addr + m > u64::MAX,
{
    let page = layout.page_size as int;
    crate::align::lemma_power_of_two_positive(page);
    crate::align::law_aligned_up_is_least_multiple(size as int, page);
    assert forall|m: int|
        size <= m < size + layout.page_size && #[trigger] (m % page) == 0 implies m
        == layout.rounded(size) by {
        crate::align::law_rounding_is_unique(size as int, page, m);
    }
}

/// Taking addresses for a request leaves everything in order.
proof fn lemma_advanced_wf(layout: ShmLayout, size: usize)
    requires
        layout.wf(),
        layout.can_round(size),
        layout.fits(size),
    ensures
        layout.advanced(size).wf(),
        layout.page_size >= 1,
        0 <= layout.rounded(size) <= usize::MAX,
        layout.rounded(size) % (layout.page_size as int) == 0,
{
    let page = layout.page_size as int;
    crate::align::lemma_power_of_two_positive(page);
    crate::align::law_aligned_up_is_least_multiple(size as int, page);
    let taken = layout.next_guest_addr - layout.start_addr;
    lemma_sum_of_multiples(taken, layout.rounded(size), page);
    let next = layout.advanced(size);
    assert forall|slot: Slot| #[trigger] next.at(slot) == layout.at(slot) by {}
}

/// The sum of two multiples is a multiple.
proof fn lemma_sum_of_multiples(a: int, b: int, d: int)
    requires
        d >= 1,
        a % d == 0,
        b % d == 0,
    ensures
        (a + b) % d == 0,
{
    vstd::arithmetic::div_mod::lemma_add_mod_noop(a, b, d);
    vstd::arithmetic::div_mod::lemma_small_mod(0, d as nat);
}

/// Giving the addresses just taken to one purpose leaves everything in order.
proof fn lemma_placed_wf(layout: ShmLayout, size: usize, slot: Slot, region: ShmRegion)
    requires
        layout.wf(),
        layout.can_round(size),
        layout.fits(size),
        region.guest_addr == layout.carved(size).guest_addr,
        region.size == layout.carved(size).size,
        region.file_offset is Some <==> slot is Conduit,
        region.host_name is Some <==> slot is Conduit,
    ensures
        layout.advanced(size).with(slot, region).wf(),
{
    lemma_advanced_wf(layout, size);
    let placed = layout.advanced(size).with(slot, region);
    assert forall|other: Slot| #[trigger] placed.at(other) == (if other == slot {
        Some(region)
    } else {
        layout.at(other)
    }) by {}
}

/// Hands out guest physical addresses, upwards from a start address, to the
/// regions of the devices that share memory with the host.
pub struct ShmManager {
    next_guest_addr: u64,
    page_size: usize,
    conduit_region: Option<ShmRegion>,
    fs_regions: BTreeMap<usize, ShmRegion>,
    gpu_region: Option<ShmRegion>,
    start_addr: Ghost<u64>,
}

impl View for ShmManager {
    type V = ShmLayout;

    closed spec fn view(&self) -> ShmLayout {
        ShmLayout {
            start_addr: self.start_addr@,
            next_guest_addr: self.next_guest_addr,
            page_size: self.page_size,
            conduit: self.conduit_region,
            fs: self.fs_regions@,
            gpu: self.gpu_region,
        }
    }
}

impl ShmManager {
    /// A manager without any region.
    pub fn new(info: &ArchMemoryInfo) -> (manager: ShmManager)
        ensures
            manager@ == (ShmLayout {
                start_addr: info.shm_start_addr,
                next_guest_addr: info.shm_start_addr,
                page_size: info.page_size,
                conduit: None,
                fs: Map::empty(),
                gpu: None,
            }),
            manager@.wf(),
    {
        proof {
            if info.page_size >= 1 {
                vstd::arithmetic::div_mod::lemma_small_mod(0, info.page_size as nat);
            }
        }

        ShmManager {
            next_guest_addr: info.shm_start_addr,
            page_size: info.page_size,
            conduit_region: None,
            fs_regions: BTreeMap::new(),
            gpu_region: None,
            start_addr: Ghost(info.shm_start_addr),
        }
    }

    /// Address, size and backing file of every region.
    pub fn regions(&self) -> (regions: Vec<(GuestAddress, usize, Option<FileOffset>)>)
        ensures
            regions@ == self@.listing(),
    {
        let mut regions: Vec<(GuestAddress, usize, Option<FileOffset>)> = Vec::new();
        let entries = self.fs_regions.iter();
        let ghost fs = self.fs_regions@;
        let ghost pairs = vstd::std_specs::iter::IteratorSpec::remaining(&entries);
        let ghost order = pairs.map_values(|kv: (&usize, &ShmRegion)| *kv.0);
        proof {
            assert forall|i: int, j: int| 0 <= i < j < order.len() implies order[i] < order[j] by {
                assert(vstd::std_specs::cmp::OrdSpec::cmp_spec(&order[i], &order[j]) is Less);
            }
            assert forall|k: usize| #[trigger] order.contains(k) <==> fs.contains_key(k) by {
                if fs.contains_key(k) {
                    let i = choose|i: int| 0 <= i < pairs.len() && pairs[i] == (&k, &fs[k]);
                    assert(order[i] == k);
                }
                if order.contains(k) {
                    let i = choose|i: int| 0 <= i < order.len() && order[i] == k;
                    assert(fs.contains_key(*pairs[i].0));
                }
            }
            assert(is_key_order(order, fs));
            lemma_key_order_unique(order, key_order(fs));
        }
        for entry in it: entries
            invariant
                it.seq() == pairs,
                regions@.len() == it.index(),
                forall|i: int|
                    0 <= i < it.index() ==> #[trigger] regions@[i] == listed(*pairs[i].1),
        {
            regions.push(
                (entry.1.guest_addr, entry.1.size, clone_file_offset(&entry.1.file_offset)),
            );
        }
        proof {
            assert forall|i: int| 0 <= i < regions@.len() implies #[trigger] regions@[i] == listed(
                fs[order[i]],
            ) by {
                assert(fs[*pairs[i].0] == *pairs[i].1);
            }
            assert(regions@ =~= order.map_values(|k: usize| listed(fs[k])));
        }
        if let Some(region) = &self.conduit_region {
            regions.push((region.guest_addr, region.size, clone_file_offset(&region.file_offset)));
        }
        if let Some(region) = &self.gpu_region {
            regions.push((region.guest_addr, region.size, clone_file_offset(&region.file_offset)));
        }
        regions
    }
}

impl ShmManager {
    /// The region of the file system with an index.
    pub fn fs_region(&self, index: usize) -> (region: Option<&ShmRegion>)
        ensures
            match region {
                Some(r) => self@.at(Slot::Fs(index)) == Some(*r),
                None => self@.at(Slot::Fs(index)) is None,
            },
            region is Some <==> self@.fs.contains_key(index),
            region matches Some(r) ==> *r == self@.fs[index],
    {
        self.fs_regions.get(&index)
    }

    /// The conduit's region.
    pub fn conduit_region(&self) -> (region: Option<&ShmRegion>)
        ensures
            match region {
                Some(r) => self@.at(Slot::Conduit) == Some(*r),
                None => self@.at(Slot::Conduit) is None,
            },
            region is Some <==> self@.conduit is Some,
            region matches Some(r) ==> *r == self@.conduit->0,
    {
        self.conduit_region.as_ref()
    }

    /// The GPU's region.
    pub fn gpu_region(&self) -> (region: Option<&ShmRegion>)
        ensures
            match region {
                Some(r) => self@.at(Slot::Gpu) == Some(*r),
                None => self@.at(Slot::Gpu) is None,
            },
            region is Some <==> self@.gpu is Some,
            region matches Some(r) ==> *r == self@.gpu->0,
    {
        self.gpu_region.as_ref()
    }

    /// Takes the next addresses for `size` bytes, rounded up to whole pages.
    /// Fails, and takes nothing, when they would pass the end of the address space.
    pub fn create_region(&mut self, size: usize) -> (created: Result<ShmRegion, Error>)
        requires
            old(self)@.wf(),
            old(self)@.can_round(size),
        ensures
            final(self)@.wf(),
            old(self)@.fits(size) ==> {
                &&& created == Ok::<ShmRegion, Error>(old(self)@.carved(size))
                &&& final(self)@ == old(self)@.advanced(size)
            },
            !old(self)@.fits(size) ==> {
                &&& created == Err::<ShmRegion, Error>(Error::OutOfSpace)
                &&& final(self)@ == old(self)@
            },
            created matches Ok(region) ==> {
                &&& region.guest_addr.0 == old(self)@.next_guest_addr
                &&& size <= region.size < size + old(self)@.page_size
                &&& region.size % old(self)@.page_size == 0
                &&& region.file_offset is None
                &&& region.host_name is None
                &&& final(self)@.next_guest_addr == old(self)@.next_guest_addr + region.size
            },
            created is Err ==> created->Err_0 is OutOfSpace && forall|m: int|
                size <= m < size + old(self)@.page_size && #[trigger] (m % (old(self)@.page_size as int)) == 0
                    ==> old(self)@.next_guest_addr + m > u64::MAX,
    {
        proof {
            lemma_room(self@, size);
        }
        let rounded: usize = align_upwards(size, self.page_size);
        let region = ShmRegion {
            guest_addr: GuestAddress(self.next_guest_addr),
            size: rounded,
            file_offset: None,
            host_name: None,
        };
        match self.next_guest_addr.checked_add(rounded as u64) {
            Some(addr) => {
                proof {
                    lemma_advanced_wf(self@, size);
                }
                self.next_guest_addr = addr;
                Ok(region)
            },
            None => Err(Error::OutOfSpace),
        }
    }

    /// Creates the GPU's region. There can be only one.
    pub fn create_gpu_region(&mut self, size: usize) -> (created: Result<(), Error>)
        requires
            old(self)@.wf(),
            old(self)@.gpu is None ==> old(self)@.can_round(size),
        ensures
            final(self)@.wf(),
            old(self)@.gpu is Some ==> {
                &&& created == Err::<(), Error>(Error::DuplicatedGpuRegion)
                &&& final(self)@ == old(self)@
            },
            old(self)@.gpu is None && !old(self)@.fits(size) ==> {
                &&& created == Err::<(), Error>(Error::OutOfSpace)
                &&& final(self)@ == old(self)@
            },
            old(self)@.gpu is None && old(self)@.fits(size) ==> {
                &&& created == Ok::<(), Error>(())
                &&& final(self)@ == old(self)@.advanced(size).with(
                    Slot::Gpu,
                    old(self)@.carved(size),
                )
            },
            created is Ok ==> old(self)@.gpu is None && (final(self)@.gpu matches Some(region) && {
                &&& region.guest_addr.0 == old(self)@.next_guest_addr
                &&& size <= region.size < size + old(self)@.page_size
                &&& region.size % old(self)@.page_size == 0
                &&& final(self)@.next_guest_addr == old(self)@.next_guest_addr + region.size
            }),
            created is Err && old(self)@.gpu is None ==> created->Err_0 is OutOfSpace && forall|m: int|
                size <= m < size + old(self)@.page_size && #[trigger] (m % (old(self)@.page_size as int)) == 0
                    ==> old(self)@.next_guest_addr + m > u64::MAX,
            final(self)@.conduit == old(self)@.conduit,
            final(self)@.fs == old(self)@.fs,
    {
        proof {
            if self@.gpu is None {
                lemma_room(self@, size);
            }
        }
        if self.gpu_region.is_some() {
            return Err(Error::DuplicatedGpuRegion);
        }
        match self.create_region(size) {
            Ok(region) => {
                proof {
                    lemma_placed_wf(old(self)@, size, Slot::Gpu, region);
                }
                self.gpu_region = Some(region);
                Ok(())
            },
            Err(e) => Err(e),
        }
    }

    /// How many bytes of shared memory `create_conduit_region` needs for a request
    /// of `size` bytes, or why it would refuse the request whatever it is given.
    pub fn conduit_shm_size(&self, size: usize) -> (needed: Result<usize, Error>)
        requires
            self@.wf(),
            self@.conduit is None ==> self@.can_round(size),
        ensures
            self@.conduit is Some ==> needed == Err::<usize, Error>(Error::DuplicatedConduitRegion),
            self@.conduit is None && !self@.fits(size) ==> needed == Err::<usize, Error>(
                Error::OutOfSpace,
            ),
            self@.conduit is None && self@.fits(size) ==> needed == Ok::<usize, Error>(
                self@.carved(size).size,
            ),
            needed matches Ok(bytes) ==> self@.conduit is None && size <= bytes < size
                + self@.page_size && bytes % self@.page_size == 0 && self@.next_guest_addr + bytes
                <= u64::MAX,
            needed is Err && self@.conduit is None ==> needed->Err_0 is OutOfSpace && forall|m: int|
                size <= m < size + self@.page_size && #[trigger] (m % (self@.page_size as int)) == 0
                    ==> self@.next_guest_addr + m > u64::MAX,
    {
        proof {
            if self@.conduit is None {
                lemma_room(self@, size);
            }
        }
        if self.conduit_region.is_some() {
            return Err(Error::DuplicatedConduitRegion);
        }
        let rounded: usize = align_upwards(size, self.page_size);
        match self.next_guest_addr.checked_add(rounded as u64) {
            Some(_) => Ok(rounded),
            None => Err(Error::OutOfSpace),
        }
    }

    /// Creates the conduit's region. There can be only one.
    ///
    /// `data_shm` is how the attempt to create the shared memory behind the region
    /// ended: the file, to be mapped from its start, and the name under which it was
    /// published, or the system's error. After such an error the addresses stay
    /// taken although no region came of them.
    pub fn create_conduit_region(
        &mut self,
        size: usize,
        data_shm: Result<(FileOffset, String), std::io::Error>,
    ) -> (created: Result<(), Error>)
        requires
            old(self)@.wf(),
            old(self)@.conduit is None ==> old(self)@.can_round(size),
        ensures
            final(self)@.wf(),
            old(self)@.conduit is Some ==> {
                &&& created == Err::<(), Error>(Error::DuplicatedConduitRegion)
                &&& final(self)@ == old(self)@
            },
            old(self)@.conduit is None && !old(self)@.fits(size) ==> {
                &&& created == Err::<(), Error>(Error::OutOfSpace)
                &&& final(self)@ == old(self)@
            },
            old(self)@.conduit is None && old(self)@.fits(size) ==> match data_shm {
                Ok((file_offset, name)) => {
                    &&& created == Ok::<(), Error>(())
                    &&& final(self)@ == old(self)@.advanced(size).with(
                        Slot::Conduit,
                        ShmRegion {
                            file_offset: Some(file_offset),
                            host_name: Some(name),
                            ..old(self)@.carved(size)
                        },
                    )
                },
                Err(e) => {
                    &&& created == Err::<(), Error>(Error::ConduitShmCreate(e))
                    &&& final(self)@ == old(self)@.advanced(size)
                },
            },
            created is Ok ==> data_shm is Ok && old(self)@.conduit is None && (
            final(self)@.conduit matches Some(region) && {
                &&& region.guest_addr.0 == old(self)@.next_guest_addr
                &&& size <= region.size < size + old(self)@.page_size
                &&& region.size % old(self)@.page_size == 0
                &&& region.file_offset == Some((data_shm->Ok_0).0)
                &&& region.host_name == Some((data_shm->Ok_0).1)
                &&& final(self)@.next_guest_addr == old(self)@.next_guest_addr + region.size
            }),
            created is Err && data_shm is Ok && old(self)@.conduit is None
                ==> created->Err_0 is OutOfSpace && forall|m: int|
                size <= m < size + old(self)@.page_size && #[trigger] (m % (old(self)@.page_size as int)) == 0
                    ==> old(self)@.next_guest_addr + m > u64::MAX,
            created is Err ==> final(self)@.conduit == old(self)@.conduit,
            final(self)@.gpu == old(self)@.gpu,
            final(self)@.fs == old(self)@.fs,
    {
        proof {
            if self@.conduit is None {
                lemma_room(self@, size);
            }
        }
        if self.conduit_region.is_some() {
            return Err(Error::DuplicatedConduitRegion);
        }
        match self.create_region(size) {
            Ok(mut region) => match data_shm {
                Ok((file_offset, name)) => {
                    region.file_offset = Some(file_offset);
                    region.host_name = Some(name);
                    proof {
                        lemma_placed_wf(old(self)@, size, Slot::Conduit, region);
                    }
                    self.conduit_region = Some(region);
                    Ok(())
                },
                Err(e) => Err(Error::ConduitShmCreate(e)),
            },
            Err(e) => Err(e),
        }
    }

    /// Creates the region of the file system with an index. A region that the index
    /// had before is forgotten; its addresses are not used again.
    pub fn create_fs_region(&mut self, index: usize, size: usize) -> (created: Result<(), Error>)
        requires
            old(self)@.wf(),
            old(self)@.can_round(size),
        ensures
            final(self)@.wf(),
            old(self)@.fits(size) ==> {
                &&& created == Ok::<(), Error>(())
                &&& final(self)@ == old(self)@.advanced(size).with(
                    Slot::Fs(index),
                    old(self)@.carved(size),
                )
            },
            !old(self)@.fits(size) ==> {
                &&& created == Err::<(), Error>(Error::OutOfSpace)
                &&& final(self)@ == old(self)@
            },
            created is Ok ==> final(self)@.fs.contains_key(index) && {
                let region = final(self)@.fs[index];
                &&& region.guest_addr.0 == old(self)@.next_guest_addr
                &&& size <= region.size < size + old(self)@.page_size
                &&& region.size % old(self)@.page_size == 0
                &&& final(self)@.fs == old(self)@.fs.insert(index, region)
                &&& final(self)@.next_guest_addr == old(self)@.next_guest_addr + region.size
            },
            created is Err ==> created->Err_0 is OutOfSpace && forall|m: int|
                size <= m < size + old(self)@.page_size && #[trigger] (m % (old(self)@.page_size as int)) == 0
                    ==> old(self)@.next_guest_addr + m > u64::MAX,
            final(self)@.conduit == old(self)@.conduit,
            final(self)@.gpu == old(self)@.gpu,
    {
        proof {
            lemma_room(self@, size);
        }
        match self.create_region(size) {
            Ok(region) => {
                proof {
                    lemma_placed_wf(old(self)@, size, Slot::Fs(index), region);
                }
                self.fs_regions.insert(index, region);
                Ok(())
            },
            Err(e) => Err(e),
        }
    }
}

/// A second handle on the same file and position.
fn clone_file_offset(file_offset: &Option<FileOffset>) -> (copy: Option<FileOffset>)
    ensures
        copy == *file_offset,
{
    match file_offset {
        Some(f) => Some(f.clone()),
        None => None,
    }
}

} // verus!
