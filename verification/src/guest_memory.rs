//! What the host knows of guest memory: the regions it is made of, where they
//! are mapped, and which of them another process can map too.

use vhost::VhostUserMemoryRegionInfo;
use vm_memory::{
    Address, GuestMemory, GuestMemoryMmap, GuestMemoryRegion, GuestRegionCollection,
    GuestRegionMmap, MemoryRegionAddress,
};
use vstd::prelude::*;

use crate::device::VirtioShmRegion;
use crate::handshake::{HandshakeError, HandshakePlan, VringConfig, VringPlan, QUEUE_SIZE};
use crate::shm::GuestAddress;

verus! {

/// `vm_memory::GuestRegionCollection`: the regions of a guest's memory. What it
/// holds is named by `guest_regions`.
#[verifier::external_type_specification]
#[verifier::external_body]
#[verifier::reject_recursive_types(R)]
pub struct ExGuestRegionCollection<R>(GuestRegionCollection<R>);

/// `vm_memory::GuestRegionMmap`: one region of guest memory, mapped into this
/// process.
#[verifier::external_type_specification]
#[verifier::external_body]
#[verifier::reject_recursive_types(B)]
pub struct ExGuestRegionMmap<B>(GuestRegionMmap<B>);

/// The file behind a region, and where in it the region starts.
#[derive(Clone, Copy, Debug, PartialEq, Eq, Structural)]
pub struct BackingFile {
    pub fd: i32,
    pub offset: u64,
}

/// One region of guest memory.
#[derive(Clone, Copy, Debug)]
pub struct GuestRegion {
    pub guest_addr: u64,
    pub size: u64,
    /// Where this process has the first byte of the region. An empty region has
    /// no such place.
    pub host_addr: Option<u64>,
    /// `None` for memory that no other process can map.
    pub file: Option<BackingFile>,
}

/// One entry of the memory table that a backend is given.
#[derive(Clone, Copy, Debug, PartialEq, Eq, Structural)]
pub struct MemoryTableEntry {
    pub guest_phys_addr: u64,
    pub memory_size: u64,
    pub userspace_addr: u64,
    pub mmap_offset: u64,
    pub mmap_handle: i32,
}

/// The state of one virtqueue when the device is activated.
#[derive(Clone, Copy, Debug)]
pub struct DeviceQueue {
    /// The guest has finished setting the queue up.
    pub ready: bool,
    /// Number of descriptors in use.
    pub actual_size: u16,
    pub desc_table: GuestAddress,
    pub avail_ring: GuestAddress,
    pub used_ring: GuestAddress,
    /// The descriptor that becomes readable when the guest kicks the queue.
    pub event_fd: i32,
}

impl GuestRegion {
    /// A guest physical address lies in the region.
    pub open spec fn covers(self, gpa: int) -> bool {
        self.guest_addr <= gpa < self.guest_addr + self.size
    }
}

/// What a `GuestMemoryMmap` holds: its regions, in the order in which it keeps them.
/// The mappings and the open files of the regions are part of the value, so their
/// addresses and descriptors are too.
pub uninterp spec fn guest_regions(mem: GuestMemoryMmap) -> Seq<GuestRegion>;

/// Regions come in ascending order and never share an address; each ends within
/// the address space, and has a place in this process unless it is empty.
pub open spec fn regions_in_order(regions: Seq<GuestRegion>) -> bool {
    &&& forall|i: int, j: int|
        0 <= i < j < regions.len() ==> (#[trigger] regions[i]).guest_addr + regions[i].size <= (
        #[trigger] regions[j]).guest_addr
    &&& forall|i: int|
        0 <= i < regions.len() ==> (#[trigger] regions[i]).guest_addr + regions[i].size <= u64::MAX
    &&& forall|i: int|
        0 <= i < regions.len() ==> ((#[trigger] regions[i]).host_addr is Some <==> regions[i].size
            > 0)
}

/// Some region starts above `start`, but not above `gpa`.
pub open spec fn starts_between(regions: Seq<GuestRegion>, start: int, gpa: int) -> bool {
    exists|j: int| 0 <= j < regions.len() && start < (#[trigger] regions[j]).guest_addr <= gpa
}

/// An address can be looked up: the last region that starts at or below it holds at
/// least one byte.
pub open spec fn can_look_up(regions: Seq<GuestRegion>, gpa: int) -> bool {
    forall|i: int|
        0 <= i < regions.len() && (#[trigger] regions[i]).size == 0 && regions[i].guest_addr <= gpa
            ==> starts_between(regions, regions[i].guest_addr as int, gpa)
}

/// Where this process has the byte at a guest physical address, if it has it.
pub open spec fn host_addr_of(regions: Seq<GuestRegion>, gpa: int) -> Option<int> {
    if exists|i: int| 0 <= i < regions.len() && (#[trigger] regions[i]).covers(gpa) {
        let i = choose|i: int| 0 <= i < regions.len() && (#[trigger] regions[i]).covers(gpa);
        Some(regions[i].host_addr->0 + (gpa - regions[i].guest_addr))
    } else {
        None
    }
}

/// If the guest has set the queue up, its parts can be looked up, in the order
/// descriptor table, used ring, available ring, as far as the first one that the guest
/// has no memory for.
pub open spec fn can_plan(regions: Seq<GuestRegion>, queue: DeviceQueue) -> bool {
    let desc = queue.desc_table.0 as int;
    let used = queue.used_ring.0 as int;
    let avail = queue.avail_ring.0 as int;
    queue.ready ==> {
        &&& can_look_up(regions, desc)
        &&& host_addr_of(regions, desc) is Some ==> can_look_up(regions, used)
        &&& host_addr_of(regions, desc) is Some && host_addr_of(regions, used) is Some
            ==> can_look_up(regions, avail)
    }
}

/// Calls `iter` of `vm_memory::GuestMemoryMmap` and puts down, for each region,
/// what `start_addr`, `len`, `file_offset` and `get_host_address` of its first
/// byte say; the file's descriptor and offset come from
/// `vhost::VhostUserMemoryRegionInfo::from_guest_region`, which succeeds just for
/// regions that have a `file_offset`. Claimed: these are all the regions, in the
/// collection's own order, which is ascending and without overlaps, because its
/// constructors refuse anything else.
#[verifier::external_body]
fn list_regions(mem: &GuestMemoryMmap) -> (regions: Vec<GuestRegion>)
    ensures
        regions@ == guest_regions(*mem),
        regions_in_order(regions@),
{
    mem.iter().map(|r| GuestRegion {
        guest_addr: r.start_addr().raw_value(),
        size: r.len(),
        host_addr: r.get_host_address(MemoryRegionAddress(0)).ok().map(|p| p as u64),
        file: VhostUserMemoryRegionInfo::from_guest_region(r).ok().map(
            |info| BackingFile { fd: info.mmap_handle, offset: info.mmap_offset },
        ),
    }).collect()
}

/// Calls `get_host_address` of `vm_memory::GuestMemoryMmap`. Claimed: it finds the
/// one region that covers the address and adds the distance from the region's
/// first byte to that byte's place in this process; it fails just for an address
/// that no region covers. It can panic where the last region that starts at or below
/// the address is empty.
#[verifier::external_body]
fn get_host_address(mem: &GuestMemoryMmap, gpa: u64) -> (host_addr: Result<
    u64,
    vm_memory::GuestMemoryError,
>)
    requires
        can_look_up(guest_regions(*mem), gpa as int),
    ensures
        match host_addr {
            Ok(addr) => host_addr_of(guest_regions(*mem), gpa as int) == Some(addr as int),
            Err(_) => host_addr_of(guest_regions(*mem), gpa as int) is None,
        },
{
    mem.get_host_address(vm_memory::GuestAddress(gpa)).map(|p| p as u64)
}

/// The table entry of a region that has a file.
pub open spec fn table_entry(region: GuestRegion) -> MemoryTableEntry {
    MemoryTableEntry {
        guest_phys_addr: region.guest_addr,
        memory_size: region.size,
        userspace_addr: region.host_addr->0,
        mmap_offset: (region.file->0).offset,
        mmap_handle: (region.file->0).fd,
    }
}

/// The region lies in the memory that the device shows the guest. Such memory is not
/// main RAM: the backend has it by other means.
pub open spec fn is_shm(region: GuestRegion, shm: Option<VirtioShmRegion>) -> bool {
    shm matches Some(s) && s.guest_addr <= region.guest_addr && region.guest_addr + region.size
        <= s.guest_addr + s.size
}

/// The regions of main RAM that another process can map.
pub open spec fn shareable(
    regions: Seq<GuestRegion>,
    shm: Option<VirtioShmRegion>,
) -> Seq<GuestRegion> {
    regions.filter(|r: GuestRegion| r.file is Some && !is_shm(r, shm))
}

/// The memory table for a backend, or why there is none.
pub open spec fn memory_table_of(
    regions: Seq<GuestRegion>,
    shm: Option<VirtioShmRegion>,
) -> Result<Seq<MemoryTableEntry>, HandshakeError> {
    let shared = shareable(regions, shm);
    if exists|i: int| 0 <= i < shared.len() && (#[trigger] shared[i]).host_addr is None {
        Err(HandshakeError::UnmappedRegion)
    } else if shared.len() == 0 {
        Err(HandshakeError::NoSharedMemory)
    } else {
        Ok(shared.map_values(|r: GuestRegion| table_entry(r)))
    }
}

/// A table, or the reason for having none, as a mathematical value.
pub open spec fn table_view(
    table: Result<Vec<MemoryTableEntry>, HandshakeError>,
) -> Result<Seq<MemoryTableEntry>, HandshakeError> {
    match table {
        Ok(entries) => Ok(entries@),
        Err(e) => Err(e),
    }
}

/// Main RAM, which is the first region, can be mapped by another process.
pub fn main_ram_shareable(regions: &Vec<GuestRegion>) -> (shareable: bool)
    ensures
        shareable == (regions@.len() > 0 && regions@[0].file is Some),
{
    if regions.len() > 0 {
        regions[0].file.is_some()
    } else {
        false
    }
}

/// The region lies in the memory that the device shows the guest.
fn lies_in_shm(region: &GuestRegion, shm: Option<VirtioShmRegion>) -> (inside: bool)
    ensures
        inside == is_shm(*region, shm),
{
    match shm {
        Some(s) => s.guest_addr <= region.guest_addr && region.guest_addr as u128
            + region.size as u128 <= s.guest_addr as u128 + s.size as u128,
        None => false,
    }
}

/// The memory table: the regions of main RAM that have a file, in order. `shm` is the
/// memory that the device shows the guest. Other regions are passed over; a table
/// without entries is an error.
pub fn memory_table(regions: &Vec<GuestRegion>, shm: Option<VirtioShmRegion>) -> (table: Result<
    Vec<MemoryTableEntry>,
    HandshakeError,
>)
    ensures
        table_view(table) == memory_table_of(regions@, shm),
        table matches Ok(entries) ==> memory_table_of(regions@, shm)
            == Ok::<Seq<MemoryTableEntry>, HandshakeError>(entries@),
        table matches Err(e) ==> memory_table_of(regions@, shm)
            == Err::<Seq<MemoryTableEntry>, HandshakeError>(e),
{
    let mut table: Vec<MemoryTableEntry> = Vec::new();
    let ghost is_listed = |r: GuestRegion| r.file is Some && !is_shm(r, shm);
    let ghost entry = |r: GuestRegion| table_entry(r);
    let ghost shared = shareable(regions@, shm);
    let mut i: usize = 0;
    proof {
        assert(regions@.take(0) =~= Seq::empty());
        reveal(Seq::filter);
        assert(regions@.take(regions@.len() as int) =~= regions@);
    }
    while i < regions.len()
        invariant
            i <= regions@.len(),
            is_listed == (|r: GuestRegion| r.file is Some && !is_shm(r, shm)),
            entry == (|r: GuestRegion| table_entry(r)),
            shared == regions@.filter(is_listed),
            table@ == regions@.take(i as int).filter(is_listed).map_values(entry),
            forall|j: int|
                0 <= j < regions@.take(i as int).filter(is_listed).len() ==> (
                #[trigger] regions@.take(i as int).filter(is_listed)[j]).host_addr is Some,
        decreases regions@.len() - i,
    {
        let region = regions[i];
        proof {
            assert(regions@.take(i + 1).drop_last() =~= regions@.take(i as int));
            assert(regions@.take(i + 1).last() == region);
            reveal(Seq::filter);
        }
        if let Some(file) = region.file {
            if !lies_in_shm(&region, shm) {
                match region.host_addr {
                    Some(host_addr) => {
                        table.push(
                            MemoryTableEntry {
                                guest_phys_addr: region.guest_addr,
                                memory_size: region.size,
                                userspace_addr: host_addr,
                                mmap_offset: file.offset,
                                mmap_handle: file.fd,
                            },
                        );
                    },
                    None => {
                        proof {
                            regions@.lemma_filter_contains(is_listed, i as int);
                            let k = choose|k: int| 0 <= k < shared.len() && shared[k] == region;
                            assert(shared[k].host_addr is None);
                        }
                        return Err(HandshakeError::UnmappedRegion);
                    },
                }
            }
        }
        i = i + 1;
    }
    proof {
        assert(regions@.take(i as int) =~= regions@);
    }
    if table.len() == 0 {
        Err(HandshakeError::NoSharedMemory)
    } else {
        Ok(table)
    }
}

/// What the negotiation does about a queue, given the regions of guest memory.
/// The parts are looked up in the order descriptor table, used ring, available
/// ring; the first one that the guest has no memory for is the one named.
pub open spec fn vring_plan_of(regions: Seq<GuestRegion>, queue: DeviceQueue) -> VringPlan {
    let desc = host_addr_of(regions, queue.desc_table.0 as int);
    let used = host_addr_of(regions, queue.used_ring.0 as int);
    let avail = host_addr_of(regions, queue.avail_ring.0 as int);
    if !queue.ready {
        VringPlan::NotReady
    } else if desc is None {
        VringPlan::Unmapped { gpa: queue.desc_table.0 }
    } else if used is None {
        VringPlan::Unmapped { gpa: queue.used_ring.0 }
    } else if avail is None {
        VringPlan::Unmapped { gpa: queue.avail_ring.0 }
    } else {
        VringPlan::Configured {
            config: VringConfig {
                queue_max_size: QUEUE_SIZE,
                queue_size: queue.actual_size,
                flags: 0,
                desc_table_addr: (desc->0) as u64,
                used_ring_addr: (used->0) as u64,
                avail_ring_addr: (avail->0) as u64,
                log_addr: None,
            },
            event_fd: queue.event_fd,
        }
    }
}

/// A part of the queue is at the address.
pub open spec fn is_part(queue: DeviceQueue, gpa: u64) -> bool {
    gpa == queue.desc_table.0 || gpa == queue.used_ring.0 || gpa == queue.avail_ring.0
}

/// The guest has set the queue up, and has no memory for some part of it.
pub open spec fn lacks_memory(regions: Seq<GuestRegion>, queue: DeviceQueue) -> bool {
    queue.ready && exists|gpa: u64|
        #[trigger] is_part(queue, gpa) && host_addr_of(regions, gpa as int) is None
}

/// What the negotiation does about one queue.
pub fn plan_vring(mem: &GuestMemoryMmap, queue: &DeviceQueue) -> (plan: VringPlan)
    requires
        can_plan(guest_regions(*mem), *queue),
    ensures
        plan == vring_plan_of(guest_regions(*mem), *queue),
        plan is NotReady <==> !queue.ready,
        plan matches VringPlan::Configured { config, event_fd } ==> {
            &&& host_addr_of(guest_regions(*mem), queue.desc_table.0 as int) == Some(
                config.desc_table_addr as int,
            )
            &&& host_addr_of(guest_regions(*mem), queue.used_ring.0 as int) == Some(
                config.used_ring_addr as int,
            )
            &&& host_addr_of(guest_regions(*mem), queue.avail_ring.0 as int) == Some(
                config.avail_ring_addr as int,
            )
            &&& config.queue_size == queue.actual_size
            &&& config.queue_max_size == 256
            &&& config.flags == 0
            &&& config.log_addr is None
            &&& event_fd == queue.event_fd
        },
{
    if !queue.ready {
        return VringPlan::NotReady;
    }
    let desc_table_addr: u64 = match get_host_address(mem, queue.desc_table.0) {
        Ok(addr) => addr,
        Err(_) => return VringPlan::Unmapped { gpa: queue.desc_table.0 },
    };
    let used_ring_addr: u64 = match get_host_address(mem, queue.used_ring.0) {
        Ok(addr) => addr,
        Err(_) => return VringPlan::Unmapped { gpa: queue.used_ring.0 },
    };
    let avail_ring_addr: u64 = match get_host_address(mem, queue.avail_ring.0) {
        Ok(addr) => addr,
        Err(_) => return VringPlan::Unmapped { gpa: queue.avail_ring.0 },
    };
    VringPlan::Configured {
        config: VringConfig {
            queue_max_size: QUEUE_SIZE,
            queue_size: queue.actual_size,
            flags: 0,
            desc_table_addr,
            used_ring_addr,
            avail_ring_addr,
            log_addr: None,
        },
        event_fd: queue.event_fd,
    }
}

/// The regions of guest memory.
pub fn regions_of(mem: &GuestMemoryMmap) -> (regions: Vec<GuestRegion>)
    ensures
        regions@ == guest_regions(*mem),
        regions_in_order(regions@),
{
    list_regions(mem)
}

/// Some region starts above `start`, but not above `gpa`.
fn has_start_between(regions: &Vec<GuestRegion>, start: u64, gpa: u64) -> (found: bool)
    ensures
        found == starts_between(regions@, start as int, gpa as int),
{
    let mut i: usize = 0;
    while i < regions.len()
        invariant
            i <= regions@.len(),
            forall|j: int|
                0 <= j < i ==> !(start < (#[trigger] regions@[j]).guest_addr <= gpa),
        decreases regions@.len() - i,
    {
        if start < regions[i].guest_addr && regions[i].guest_addr <= gpa {
            return true;
        }
        i = i + 1;
    }
    false
}

/// The address can be looked up.
fn may_look_up(regions: &Vec<GuestRegion>, gpa: u64) -> (may: bool)
    ensures
        may == can_look_up(regions@, gpa as int),
{
    let mut i: usize = 0;
    while i < regions.len()
        invariant
            i <= regions@.len(),
            forall|j: int|
                0 <= j < i && (#[trigger] regions@[j]).size == 0 && regions@[j].guest_addr <= gpa
                    ==> starts_between(regions@, regions@[j].guest_addr as int, gpa as int),
        decreases regions@.len() - i,
    {
        let region = regions[i];
        if region.size == 0 && region.guest_addr <= gpa && !has_start_between(
            regions,
            region.guest_addr,
            gpa,
        ) {
            assert(regions@[i as int].size == 0);
            return false;
        }
        i = i + 1;
    }
    true
}

/// The parts of the queue can be looked up as far as the first one that the guest has
/// no memory for.
fn may_plan(mem: &GuestMemoryMmap, regions: &Vec<GuestRegion>, queue: &DeviceQueue) -> (may: bool)
    requires
        regions@ == guest_regions(*mem),
    ensures
        may == can_plan(regions@, *queue),
{
    if !queue.ready {
        return true;
    }
    if !may_look_up(regions, queue.desc_table.0) {
        return false;
    }
    if get_host_address(mem, queue.desc_table.0).is_err() {
        return true;
    }
    if !may_look_up(regions, queue.used_ring.0) {
        return false;
    }
    get_host_address(mem, queue.used_ring.0).is_err() || may_look_up(regions, queue.avail_ring.0)
}

/// The negotiation comes to queue number `i`, if nothing else ends it: there is a memory
/// table, and no queue before has a part that the guest has no memory for.
pub open spec fn comes_to(
    regions: Seq<GuestRegion>,
    queues: Seq<DeviceQueue>,
    shm: Option<VirtioShmRegion>,
    i: int,
) -> bool {
    &&& memory_table_of(regions, shm) is Ok
    &&& forall|j: int|
        0 <= j < i ==> !(vring_plan_of(regions, #[trigger] queues[j]) is Unmapped)
}

/// What the negotiation does about each queue, as far as it comes to them.
pub open spec fn vring_plans_of(
    regions: Seq<GuestRegion>,
    queues: Seq<DeviceQueue>,
    shm: Option<VirtioShmRegion>,
) -> Seq<VringPlan> {
    Seq::new(
        queues.len(),
        |i: int|
            if comes_to(regions, queues, shm, i) {
                vring_plan_of(regions, queues[i])
            } else {
                VringPlan::NotReady
            },
    )
}

/// The negotiation comes to a queue that needs an address which cannot be looked up.
pub open spec fn needs_bad_lookup(
    regions: Seq<GuestRegion>,
    queues: Seq<DeviceQueue>,
    shm: Option<VirtioShmRegion>,
) -> bool {
    exists|i: int|
        0 <= i < queues.len() && comes_to(regions, queues, shm, i) && !can_plan(
            regions,
            #[trigger] queues[i],
        )
}

/// A queue that is to be configured has its own parts where the backend is told that
/// they are.
spec fn is_setup_of(regions: Seq<GuestRegion>, queue: DeviceQueue, plan: VringPlan) -> bool {
    plan matches VringPlan::Configured { config, event_fd } ==> {
        &&& queue.ready
        &&& host_addr_of(regions, queue.desc_table.0 as int) == Some(config.desc_table_addr as int)
        &&& host_addr_of(regions, queue.used_ring.0 as int) == Some(config.used_ring_addr as int)
        &&& host_addr_of(regions, queue.avail_ring.0 as int) == Some(config.avail_ring_addr as int)
        &&& config.queue_size == queue.actual_size
        &&& event_fd == queue.event_fd
    }
}

/// What `plan_handshake` says of queues none of which is given up at.
proof fn lemma_planned(
    regions: Seq<GuestRegion>,
    queues: Seq<DeviceQueue>,
    shm: Option<VirtioShmRegion>,
)
    ensures
        memory_table_of(regions, shm) is Ok && (forall|i: int|
            0 <= i < queues.len() && (#[trigger] queues[i]).ready ==> {
                &&& host_addr_of(regions, queues[i].desc_table.0 as int) is Some
                &&& host_addr_of(regions, queues[i].used_ring.0 as int) is Some
                &&& host_addr_of(regions, queues[i].avail_ring.0 as int) is Some
            }) ==> forall|i: int|
            0 <= i < queues.len() ==> {
                &&& (#[trigger] vring_plans_of(regions, queues, shm)[i]) is Configured
                    <==> queues[i].ready
                &&& vring_plans_of(regions, queues, shm)[i] is NotReady <==> !queues[i].ready
            },
{
    if memory_table_of(regions, shm) is Ok && (forall|i: int|
        0 <= i < queues.len() && (#[trigger] queues[i]).ready ==> {
            &&& host_addr_of(regions, queues[i].desc_table.0 as int) is Some
            &&& host_addr_of(regions, queues[i].used_ring.0 as int) is Some
            &&& host_addr_of(regions, queues[i].avail_ring.0 as int) is Some
        }) {
        assert forall|i: int| 0 <= i < queues.len() implies {
            &&& (#[trigger] vring_plans_of(regions, queues, shm)[i]) is Configured
                <==> queues[i].ready
            &&& vring_plans_of(regions, queues, shm)[i] is NotReady <==> !queues[i].ready
        } by {
            law_every_ready_queue_is_configured(regions, queues, shm, i);
        }
    }
}

/// Prepares the negotiation: the memory table, and what to do about each queue. `shm`
/// is the memory that the device shows the guest.
///
/// `None` if the negotiation would come to a part of a queue that lies at or above an
/// empty region and below the next one, where addresses cannot be looked up. It comes
/// to no part or queue after a part that the guest has no memory for.
pub fn plan_handshake(
    mem: &GuestMemoryMmap,
    queues: &Vec<DeviceQueue>,
    acked_features: u64,
    shm: Option<VirtioShmRegion>,
) -> (plan: Option<HandshakePlan>)
    ensures
        plan is None <==> needs_bad_lookup(guest_regions(*mem), queues@, shm),
        plan matches Some(p) ==> {
            &&& p.acked_features == acked_features
            &&& table_view(p.table) == memory_table_of(guest_regions(*mem), shm)
            &&& p.vrings@ == vring_plans_of(guest_regions(*mem), queues@, shm)
            &&& p.vrings@.len() == queues@.len()
        },
        plan matches Some(p) ==> forall|i: int|
            0 <= i < queues@.len() ==> ((#[trigger] p.vrings@[i]) matches VringPlan::Configured {
                config,
                event_fd,
            } ==> {
                let regions = guest_regions(*mem);
                &&& queues@[i].ready
                &&& host_addr_of(regions, queues@[i].desc_table.0 as int) == Some(
                    config.desc_table_addr as int,
                )
                &&& host_addr_of(regions, queues@[i].used_ring.0 as int) == Some(
                    config.used_ring_addr as int,
                )
                &&& host_addr_of(regions, queues@[i].avail_ring.0 as int) == Some(
                    config.avail_ring_addr as int,
                )
                &&& config.queue_size == queues@[i].actual_size
                &&& event_fd == queues@[i].event_fd
            }),
        plan matches Some(p) ==> p.table is Ok && (forall|i: int|
            0 <= i < queues@.len() && (#[trigger] queues@[i]).ready ==> {
                let regions = guest_regions(*mem);
                &&& host_addr_of(regions, queues@[i].desc_table.0 as int) is Some
                &&& host_addr_of(regions, queues@[i].used_ring.0 as int) is Some
                &&& host_addr_of(regions, queues@[i].avail_ring.0 as int) is Some
            }) ==> forall|i: int|
            0 <= i < queues@.len() ==> {
                &&& (#[trigger] p.vrings@[i]) is Configured <==> queues@[i].ready
                &&& p.vrings@[i] is NotReady <==> !queues@[i].ready
            },
{
    let regions = list_regions(mem);
    let table = memory_table(&regions, shm);
    let mut goes_on: bool = table.is_ok();
    let mut vrings: Vec<VringPlan> = Vec::new();
    let mut q: usize = 0;
    while q < queues.len()
        invariant
            q <= queues@.len(),
            regions@ == guest_regions(*mem),
            goes_on == comes_to(regions@, queues@, shm, q as int),
            forall|j: int|
                0 <= j < q && comes_to(regions@, queues@, shm, j) ==> can_plan(
                    regions@,
                    #[trigger] queues@[j],
                ),
            vrings@.len() == q,
            forall|j: int|
                0 <= j < q ==> #[trigger] vrings@[j] == vring_plans_of(regions@, queues@, shm)[j],
            forall|j: int|
                0 <= j < q ==> is_setup_of(regions@, queues@[j], #[trigger] vrings@[j]),
        decreases queues@.len() - q,
    {
        let ghost here = queues@[q as int];
        if goes_on {
            if !may_plan(mem, &regions, &queues[q]) {
                assert(!can_plan(regions@, here));
                return None;
            }
            let plan = plan_vring(mem, &queues[q]);
            if let VringPlan::Unmapped { .. } = plan {
                goes_on = false;
            }
            vrings.push(plan);
        } else {
            vrings.push(VringPlan::NotReady);
        }
        q = q + 1;
    }
    assert(vrings@ =~= vring_plans_of(regions@, queues@, shm));
    proof {
        lemma_planned(regions@, queues@, shm);
    }
    Some(HandshakePlan { acked_features, table, vrings })
}

/// The table entry holds the byte that this process has at `host_addr`.
pub open spec fn entry_holds(entry: MemoryTableEntry, host_addr: int) -> bool {
    entry.userspace_addr <= host_addr < entry.userspace_addr + entry.memory_size
}

/// The guest physical address that a backend computes from an address of this
/// process and the table entry that holds it.
pub open spec fn gpa_by_entry(entry: MemoryTableEntry, host_addr: int) -> int {
    host_addr - entry.userspace_addr + entry.guest_phys_addr
}

/// A backend that is given the memory table undoes the translation of addresses:
/// for every address in a region of main RAM that has a file, the table has an entry
/// which holds the translated address and from which the backend computes the
/// address that was translated.
pub proof fn law_backend_undoes_translation(
    regions: Seq<GuestRegion>,
    shm: Option<VirtioShmRegion>,
    i: int,
    gpa: int,
)
    requires
        regions_in_order(regions),
        memory_table_of(regions, shm) is Ok,
        0 <= i < regions.len(),
        regions[i].file is Some,
        !is_shm(regions[i], shm),
        regions[i].covers(gpa),
    ensures
        host_addr_of(regions, gpa) is Some,
        ({
            let table = memory_table_of(regions, shm)->Ok_0;
            let host_addr = host_addr_of(regions, gpa)->0;
            exists|k: int|
                0 <= k < table.len() && entry_holds(#[trigger] table[k], host_addr) && gpa_by_entry(
                    table[k],
                    host_addr,
                ) == gpa
        }),
{
    lemma_one_region_covers(regions, i, gpa);
    let is_listed = |r: GuestRegion| r.file is Some && !is_shm(r, shm);
    regions.lemma_filter_contains(is_listed, i);
    let shared = shareable(regions, shm);
    let k = choose|k: int| 0 <= k < shared.len() && shared[k] == regions[i];
    let table = memory_table_of(regions, shm)->Ok_0;
    assert(table[k] == table_entry(regions[i]));
    assert(entry_holds(table[k], host_addr_of(regions, gpa)->0));
}

/// No other region covers an address that one region covers.
proof fn lemma_one_region_covers(regions: Seq<GuestRegion>, i: int, gpa: int)
    requires
        regions_in_order(regions),
        0 <= i < regions.len(),
        regions[i].covers(gpa),
    ensures
        host_addr_of(regions, gpa) == Some(regions[i].host_addr->0 + (gpa - regions[i].guest_addr)),
{
    let j = choose|j: int| 0 <= j < regions.len() && (#[trigger] regions[j]).covers(gpa);
    if j < i {
        assert(regions[j].guest_addr + regions[j].size <= regions[i].guest_addr);
    } else if i < j {
        assert(regions[i].guest_addr + regions[i].size <= regions[j].guest_addr);
    }
}

/// An address that lies in a region is where the region's first byte is, and as much
/// further as it is further into the region; an address in no region is nowhere.
pub proof fn law_address_is_found_in_its_region(regions: Seq<GuestRegion>, gpa: int)
    requires
        regions_in_order(regions),
    ensures
        forall|i: int|
            0 <= i < regions.len() && (#[trigger] regions[i]).guest_addr <= gpa && gpa
                < regions[i].guest_addr + regions[i].size ==> (regions[i].host_addr matches Some(
                first,
            ) && host_addr_of(regions, gpa) == Some(first + gpa - regions[i].guest_addr)),
        (forall|i: int|
            0 <= i < regions.len() ==> gpa < (#[trigger] regions[i]).guest_addr || gpa
                >= regions[i].guest_addr + regions[i].size) <==> host_addr_of(regions, gpa) is None,
{
    assert forall|i: int|
        0 <= i < regions.len() && (#[trigger] regions[i]).guest_addr <= gpa && gpa
            < regions[i].guest_addr + regions[i].size implies (regions[i].host_addr matches Some(
        first,
    ) && host_addr_of(regions, gpa) == Some(first + gpa - regions[i].guest_addr)) by {
        assert(regions[i].covers(gpa));
        lemma_one_region_covers(regions, i, gpa);
    }
    if forall|i: int|
        0 <= i < regions.len() ==> gpa < (#[trigger] regions[i]).guest_addr || gpa
            >= regions[i].guest_addr + regions[i].size {
        assert forall|i: int| 0 <= i < regions.len() implies !(#[trigger] regions[i]).covers(gpa) by {}
    }
}

/// Distinct bytes of one region stay as far apart in this process as they are in
/// the guest.
pub proof fn law_translation_keeps_distance(regions: Seq<GuestRegion>, i: int, a: int, b: int)
    requires
        regions_in_order(regions),
        0 <= i < regions.len(),
        regions[i].covers(a),
        regions[i].covers(b),
    ensures
        host_addr_of(regions, a) is Some,
        host_addr_of(regions, b) is Some,
        host_addr_of(regions, b)->0 - host_addr_of(regions, a)->0 == b - a,
{
    lemma_one_region_covers(regions, i, a);
    lemma_one_region_covers(regions, i, b);
}

/// Memory without a file, and memory that the device shows the guest, never reach the
/// table: every entry stands for a region of main RAM that has a file.
pub proof fn law_table_holds_only_shareable_regions(
    regions: Seq<GuestRegion>,
    shm: Option<VirtioShmRegion>,
    k: int,
)
    requires
        memory_table_of(regions, shm) is Ok,
        0 <= k < (memory_table_of(regions, shm)->Ok_0).len(),
    ensures
        exists|i: int|
            0 <= i < regions.len() && (#[trigger] regions[i]).file is Some && !is_shm(
                regions[i],
                shm,
            ) && (memory_table_of(regions, shm)->Ok_0)[k] == table_entry(regions[i]),
{
    let is_listed = |r: GuestRegion| r.file is Some && !is_shm(r, shm);
    regions.lemma_filter_pred(is_listed, k);
    lemma_filter_from(regions, is_listed, k);
}

/// Every entry of the table tells of one region of main RAM: where the guest has it,
/// how large it is, where this process has it, and which bytes of which file it is.
pub proof fn law_entry_describes_its_region(
    regions: Seq<GuestRegion>,
    shm: Option<VirtioShmRegion>,
    k: int,
)
    requires
        memory_table_of(regions, shm) is Ok,
        0 <= k < (memory_table_of(regions, shm)->Ok_0).len(),
    ensures
        ({
            let entry = (memory_table_of(regions, shm)->Ok_0)[k];
            exists|i: int|
                0 <= i < regions.len() && entry.guest_phys_addr == (
                #[trigger] regions[i]).guest_addr && entry.memory_size == regions[i].size
                    && regions[i].host_addr == Some(entry.userspace_addr) && (
                regions[i].file matches Some(file) && entry.mmap_offset == file.offset
                    && entry.mmap_handle == file.fd) && !(shm matches Some(s) && s.guest_addr
                    <= regions[i].guest_addr && regions[i].guest_addr + regions[i].size
                    <= s.guest_addr + s.size)
        }),
{
    let is_listed = |r: GuestRegion| r.file is Some && !is_shm(r, shm);
    let shared = shareable(regions, shm);
    regions.lemma_filter_pred(is_listed, k);
    lemma_filter_from(regions, is_listed, k);
    let i = choose|i: int| 0 <= i < regions.len() && #[trigger] regions[i] == shared[k];
    assert(shared[k].host_addr is Some);
    assert(regions[i].file is Some);
}

/// The table of no memory is refused. One more region at the end changes nothing if it
/// has no file or lies in the memory that the device shows the guest; otherwise it adds
/// an entry of its own at the end, or spoils the table if this process does not have
/// the region.
pub proof fn law_table_grows_by_region(
    regions: Seq<GuestRegion>,
    shm: Option<VirtioShmRegion>,
    region: GuestRegion,
)
    ensures
        memory_table_of(Seq::empty(), shm) == Err::<Seq<MemoryTableEntry>, HandshakeError>(
            HandshakeError::NoSharedMemory,
        ),
        ({
            let before = memory_table_of(regions, shm);
            let after = memory_table_of(regions.push(region), shm);
            let shown = shm matches Some(s) && s.guest_addr <= region.guest_addr
                && region.guest_addr + region.size <= s.guest_addr + s.size;
            match region.file {
                Some(file) if !shown => match region.host_addr {
                    Some(host_addr) => {
                        let entry = MemoryTableEntry {
                            guest_phys_addr: region.guest_addr,
                            memory_size: region.size,
                            userspace_addr: host_addr,
                            mmap_offset: file.offset,
                            mmap_handle: file.fd,
                        };
                        match before {
                            Ok(table) => after == Ok::<Seq<MemoryTableEntry>, HandshakeError>(
                                table.push(entry),
                            ),
                            Err(HandshakeError::NoSharedMemory) => after == Ok::<
                                Seq<MemoryTableEntry>,
                                HandshakeError,
                            >(seq![entry]),
                            Err(e) => after == before && e is UnmappedRegion,
                        }
                    },
                    None => after == Err::<Seq<MemoryTableEntry>, HandshakeError>(
                        HandshakeError::UnmappedRegion,
                    ),
                },
                _ => after == before,
            }
        }),
{
    let is_listed = |r: GuestRegion| r.file is Some && !is_shm(r, shm);
    let to_entry = |r: GuestRegion| table_entry(r);
    let all = regions.push(region);
    let shared = shareable(regions, shm);
    let grown = shareable(all, shm);
    reveal(Seq::filter);
    assert(shareable(Seq::empty(), shm) =~= Seq::empty());
    assert(all.drop_last() =~= regions);
    assert(all.last() == region);
    if is_listed(region) {
        assert(grown == shared.push(region));
        assert(grown[shared.len() as int] == region);
        assert forall|k: int| 0 <= k < shared.len() implies #[trigger] grown[k] == shared[k] by {}
        if exists|k: int| 0 <= k < shared.len() && (#[trigger] shared[k]).host_addr is None {
            let k = choose|k: int| 0 <= k < shared.len() && (#[trigger] shared[k]).host_addr is None;
            assert(grown[k].host_addr is None);
        } else if region.host_addr is Some {
            assert(forall|k: int|
                0 <= k < grown.len() ==> (#[trigger] grown[k]).host_addr is Some);
            assert(grown.map_values(to_entry) =~= shared.map_values(to_entry).push(
                table_entry(region),
            ));
            if shared.len() == 0 {
                assert(grown.map_values(to_entry) =~= seq![table_entry(region)]);
            }
        }
    } else {
        assert(grown == shared);
    }
}

/// Once main RAM can be mapped by another process there is a memory table.
pub proof fn law_shareable_ram_gives_a_table(
    regions: Seq<GuestRegion>,
    shm: Option<VirtioShmRegion>,
)
    requires
        regions_in_order(regions),
        forall|i: int| 0 <= i < regions.len() ==> (#[trigger] regions[i]).size > 0,
        regions.len() > 0,
        regions[0].file is Some,
        !is_shm(regions[0], shm),
    ensures
        memory_table_of(regions, shm) is Ok,
{
    let is_listed = |r: GuestRegion| r.file is Some && !is_shm(r, shm);
    let shared = shareable(regions, shm);
    regions.lemma_filter_contains(is_listed, 0);
    assert forall|k: int| 0 <= k < shared.len() implies (#[trigger] shared[k]).host_addr is Some by {
        lemma_filter_from(regions, is_listed, k);
    }
}

/// The region of guest memory is the one that an entry of a layout's listing speaks of.
pub open spec fn stands_for(
    region: GuestRegion,
    listed: (GuestAddress, usize, Option<vm_memory::FileOffset>),
) -> bool {
    &&& region.guest_addr == listed.0.0
    &&& region.size == listed.1
    &&& region.file is Some <==> listed.2 is Some
}

/// The memory that the device shows the guest is the conduit's region of a layout.
pub open spec fn shows_conduit(
    shm: Option<VirtioShmRegion>,
    layout: crate::shm::ShmLayout,
) -> bool {
    layout.conduit matches Some(region) ==> {
        shm matches Some(s) && s.guest_addr == region.guest_addr.0 && s.size == region.size
    }
}

/// No shared-memory region reaches the table, neither that of a file system nor the
/// conduit's nor the GPU's: the table has no entry for it, and no entry with an
/// address of it.
pub proof fn law_shm_regions_stay_out_of_the_table(
    layout: crate::shm::ShmLayout,
    regions: Seq<GuestRegion>,
    shm: Option<VirtioShmRegion>,
    i: int,
    j: int,
)
    requires
        layout.wf(),
        shows_conduit(shm, layout),
        regions_in_order(regions),
        0 <= i < layout.listing().len(),
        0 <= j < regions.len(),
        stands_for(regions[j], layout.listing()[i]),
    ensures
        !shareable(regions, shm).contains(regions[j]),
        memory_table_of(regions, shm) matches Ok(table) ==> forall|k: int|
            0 <= k < table.len() ==> (#[trigger] table[k]).guest_phys_addr + table[k].memory_size
                <= regions[j].guest_addr || regions[j].guest_addr + regions[j].size
                <= table[k].guest_phys_addr,
{
    crate::shm::law_only_the_conduit_is_backed(layout, i);
    crate::shm::law_listing_is_all_regions(layout);
    let is_listed = |r: GuestRegion| r.file is Some && !is_shm(r, shm);
    let shared = shareable(regions, shm);
    assert(layout.at(layout.listed_slot(i)) is Some);
    assert(!is_listed(regions[j]));
    if shared.contains(regions[j]) {
        let k = choose|k: int| 0 <= k < shared.len() && shared[k] == regions[j];
        regions.lemma_filter_pred(is_listed, k);
    }
    if let Ok(table) = memory_table_of(regions, shm) {
        assert forall|k: int| 0 <= k < table.len() implies (#[trigger] table[k]).guest_phys_addr
            + table[k].memory_size <= regions[j].guest_addr || regions[j].guest_addr
            + regions[j].size <= table[k].guest_phys_addr by {
            law_table_holds_only_shareable_regions(regions, shm, k);
            let m = choose|m: int|
                0 <= m < regions.len() && (#[trigger] regions[m]).file is Some && !is_shm(
                    regions[m],
                    shm,
                ) && table[k] == table_entry(regions[m]);
            assert(m != j);
        }
    }
}

/// A queue is passed over just where the guest has not set it up.
pub proof fn law_queue_is_passed_over_unless_ready(regions: Seq<GuestRegion>, queue: DeviceQueue)
    ensures
        vring_plan_of(regions, queue) is NotReady <==> !queue.ready,
{
}

/// The negotiation gives up at a queue just where the guest has set it up and has no
/// memory for some part of it; it names such a part.
pub proof fn law_queue_without_memory_is_unmapped(regions: Seq<GuestRegion>, queue: DeviceQueue)
    ensures
        vring_plan_of(regions, queue) is Unmapped <==> lacks_memory(regions, queue),
        vring_plan_of(regions, queue) matches VringPlan::Unmapped { gpa } ==> is_part(queue, gpa)
            && host_addr_of(regions, gpa as int) is None,
{
    assert(is_part(queue, queue.desc_table.0));
    assert(is_part(queue, queue.used_ring.0));
    assert(is_part(queue, queue.avail_ring.0));
}

/// What is done about a queue by itself: nothing unless the guest has set it up;
/// giving up at the first of descriptor table, used ring and available ring that the
/// guest has no memory for; and otherwise configuring it with its own size, addresses
/// and event.
pub proof fn law_queue_is_configured_as_it_is(regions: Seq<GuestRegion>, queue: DeviceQueue)
    ensures
        ({
            let desc = host_addr_of(regions, queue.desc_table.0 as int);
            let used = host_addr_of(regions, queue.used_ring.0 as int);
            let avail = host_addr_of(regions, queue.avail_ring.0 as int);
            match vring_plan_of(regions, queue) {
                VringPlan::NotReady => !queue.ready,
                VringPlan::Unmapped { gpa } => queue.ready && {
                    ||| gpa == queue.desc_table.0 && desc is None
                    ||| gpa == queue.used_ring.0 && desc is Some && used is None
                    ||| gpa == queue.avail_ring.0 && desc is Some && used is Some && avail is None
                },
                VringPlan::Configured { config, event_fd } => {
                    &&& queue.ready
                    &&& desc matches Some(a) && (0 <= a <= u64::MAX ==> config.desc_table_addr == a)
                    &&& used matches Some(a) && (0 <= a <= u64::MAX ==> config.used_ring_addr == a)
                    &&& avail matches Some(a) && (0 <= a <= u64::MAX ==> config.avail_ring_addr == a)
                    &&& config.queue_size == queue.actual_size
                    &&& config.queue_max_size == 256
                    &&& config.flags == 0
                    &&& config.log_addr is None
                    &&& event_fd == queue.event_fd
                },
            }
        }),
{
}

/// Where there is a memory table, and the guest has memory for every part of each queue
/// that it has set up, every queue that is set up is configured, from what it says
/// itself, and just the others are passed over.
pub proof fn law_every_ready_queue_is_configured(
    regions: Seq<GuestRegion>,
    queues: Seq<DeviceQueue>,
    shm: Option<VirtioShmRegion>,
    i: int,
)
    requires
        memory_table_of(regions, shm) is Ok,
        forall|j: int|
            0 <= j < queues.len() && (#[trigger] queues[j]).ready ==> {
                &&& host_addr_of(regions, queues[j].desc_table.0 as int) is Some
                &&& host_addr_of(regions, queues[j].used_ring.0 as int) is Some
                &&& host_addr_of(regions, queues[j].avail_ring.0 as int) is Some
            },
        0 <= i < queues.len(),
    ensures
        vring_plans_of(regions, queues, shm).len() == queues.len(),
        ({
            let plan = vring_plans_of(regions, queues, shm)[i];
            let desc = host_addr_of(regions, queues[i].desc_table.0 as int)->0;
            let used = host_addr_of(regions, queues[i].used_ring.0 as int)->0;
            let avail = host_addr_of(regions, queues[i].avail_ring.0 as int)->0;
            &&& plan is Configured <==> queues[i].ready
            &&& plan is NotReady <==> !queues[i].ready
            &&& plan matches VringPlan::Configured { config, event_fd } ==> {
                &&& 0 <= desc <= u64::MAX ==> config.desc_table_addr == desc
                &&& 0 <= used <= u64::MAX ==> config.used_ring_addr == used
                &&& 0 <= avail <= u64::MAX ==> config.avail_ring_addr == avail
                &&& config.queue_size == queues[i].actual_size
                &&& event_fd == queues[i].event_fd
            }
        }),
{
    law_queue_is_configured_as_it_is(regions, queues[i]);
    assert(comes_to(regions, queues, shm, i)) by {
        assert forall|j: int| 0 <= j < i implies !(vring_plan_of(
            regions,
            #[trigger] queues[j],
        ) is Unmapped) by {
            law_queue_is_configured_as_it_is(regions, queues[j]);
        }
    }
}

/// What is done about a queue does not depend on the queues after it, nor on those
/// before it as long as the negotiation gets past them: the first queue with a part
/// that the guest has no memory for is given up at, and those before it are treated as
/// they would be alone.
pub proof fn law_queues_are_planned_up_to_the_first_failure(
    regions: Seq<GuestRegion>,
    queues: Seq<DeviceQueue>,
    shm: Option<VirtioShmRegion>,
    i: int,
)
    requires
        memory_table_of(regions, shm) is Ok,
        0 <= i < queues.len(),
        forall|j: int|
            0 <= j < i && (#[trigger] queues[j]).ready ==> {
                &&& host_addr_of(regions, queues[j].desc_table.0 as int) is Some
                &&& host_addr_of(regions, queues[j].used_ring.0 as int) is Some
                &&& host_addr_of(regions, queues[j].avail_ring.0 as int) is Some
            },
    ensures
        vring_plans_of(regions, queues, shm)[i] == vring_plans_of(regions, seq![queues[i]], shm)[0],
        vring_plans_of(regions, queues, shm)[i] == vring_plan_of(regions, queues[i]),
{
    assert(comes_to(regions, queues, shm, i)) by {
        assert forall|j: int| 0 <= j < i implies !(vring_plan_of(
            regions,
            #[trigger] queues[j],
        ) is Unmapped) by {
            law_queue_is_configured_as_it_is(regions, queues[j]);
        }
    }
    assert(comes_to(regions, seq![queues[i]], shm, 0));
}

/// A plan fails to be made only on account of an empty region, and of a queue that is
/// set up and has a part at or above it with no other region starting in between.
pub proof fn law_no_plan_only_behind_an_empty_region(
    regions: Seq<GuestRegion>,
    queues: Seq<DeviceQueue>,
    shm: Option<VirtioShmRegion>,
)
    requires
        needs_bad_lookup(regions, queues, shm),
    ensures
        memory_table_of(regions, shm) is Ok,
        exists|r: int, q: int, gpa: u64|
            0 <= r < regions.len() && 0 <= q < queues.len() && (#[trigger] regions[r]).size == 0
                && (#[trigger] queues[q]).ready && (gpa == queues[q].desc_table.0 || gpa
                == queues[q].used_ring.0 || gpa == queues[q].avail_ring.0)
                && regions[r].guest_addr <= gpa && #[trigger] no_start_between(
                regions,
                regions[r].guest_addr,
                gpa,
            ),
{
    let q = choose|q: int|
        0 <= q < queues.len() && comes_to(regions, queues, shm, q) && !can_plan(
            regions,
            #[trigger] queues[q],
        );
    let gpa: u64 = if !can_look_up(regions, queues[q].desc_table.0 as int) {
        queues[q].desc_table.0
    } else if !can_look_up(regions, queues[q].used_ring.0 as int) {
        queues[q].used_ring.0
    } else {
        queues[q].avail_ring.0
    };
    assert(!can_look_up(regions, gpa as int));
    let r = choose|r: int|
        0 <= r < regions.len() && (#[trigger] regions[r]).size == 0 && regions[r].guest_addr <= gpa
            && !starts_between(regions, regions[r].guest_addr as int, gpa as int);
    assert(queues[q].ready);
    assert(no_start_between(regions, regions[r].guest_addr, gpa));
}

/// No region starts above `start` and at or below `gpa`.
pub open spec fn no_start_between(regions: Seq<GuestRegion>, start: u64, gpa: u64) -> bool {
    forall|j: int|
        0 <= j < regions.len() ==> (#[trigger] regions[j]).guest_addr <= start
            || regions[j].guest_addr > gpa
}

/// Where no region is empty a plan is always made.
pub proof fn law_memory_without_empty_regions_is_planned(
    regions: Seq<GuestRegion>,
    queues: Seq<DeviceQueue>,
    shm: Option<VirtioShmRegion>,
)
    requires
        forall|i: int| 0 <= i < regions.len() ==> (#[trigger] regions[i]).size > 0,
    ensures
        !needs_bad_lookup(regions, queues, shm),
{
    if needs_bad_lookup(regions, queues, shm) {
        law_no_plan_only_behind_an_empty_region(regions, queues, shm);
    }
}

/// What a filter lets through was there before.
proof fn lemma_filter_from(s: Seq<GuestRegion>, keep: spec_fn(GuestRegion) -> bool, k: int)
    requires
        0 <= k < s.filter(keep).len(),
    ensures
        exists|i: int| 0 <= i < s.len() && #[trigger] s[i] == s.filter(keep)[k],
    decreases s.len(),
{
    reveal(Seq::filter);
    if s.len() > 0 {
        let rest = s.drop_last();
        if k < rest.filter(keep).len() {
            lemma_filter_from(rest, keep, k);
            let i = choose|i: int| 0 <= i < rest.len() && #[trigger] rest[i] == rest.filter(keep)[k];
            assert(s[i] == s.filter(keep)[k]);
        } else {
            assert(s[s.len() - 1] == s.filter(keep)[k]);
        }
    }
}

} // verus!
