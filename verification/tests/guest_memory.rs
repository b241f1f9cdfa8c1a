use vhost_user_conduit::device::VirtioShmRegion;
use vhost_user_conduit::guest_memory::{
    main_ram_shareable, memory_table, plan_handshake, plan_vring, regions_of, BackingFile,
    DeviceQueue, GuestRegion, MemoryTableEntry,
};
use vhost_user_conduit::handshake::{HandshakeError, VringConfig, VringPlan};
use vhost_user_conduit::shm::{ArchMemoryInfo, GuestAddress, ShmManager};
use vm_memory::{FileOffset, GuestMemory, GuestMemoryMmap};
use vmm_sys_util::tempfile::TempFile;

fn file_offset(start: u64, len: u64) -> FileOffset {
    let file = TempFile::new().unwrap().into_file();
    file.set_len(start + len).unwrap();
    FileOffset::new(file, start)
}

/// Shareable memory at 0x1000, other memory at 0x8000.
fn memory() -> GuestMemoryMmap {
    GuestMemoryMmap::from_ranges_with_files(&[
        (vm_memory::GuestAddress(0x1000), 0x2000, Some(file_offset(0x4000, 0x2000))),
        (vm_memory::GuestAddress(0x8000), 0x1000, None),
    ])
    .unwrap()
}

fn host(mem: &GuestMemoryMmap, gpa: u64) -> u64 {
    mem.get_host_address(vm_memory::GuestAddress(gpa)).unwrap() as u64
}

fn queue(desc: u64, avail: u64, used: u64) -> DeviceQueue {
    DeviceQueue {
        ready: true,
        actual_size: 128,
        desc_table: GuestAddress(desc),
        avail_ring: GuestAddress(avail),
        used_ring: GuestAddress(used),
        event_fd: 33,
    }
}

fn plain(guest_addr: u64, host_addr: u64, fd: i32) -> GuestRegion {
    GuestRegion {
        guest_addr,
        size: 0x1000,
        host_addr: Some(host_addr),
        file: Some(BackingFile { fd, offset: 0x40 }),
    }
}

fn anonymous(guest_addr: u64) -> GuestRegion {
    GuestRegion {
        guest_addr,
        size: 0x1000,
        host_addr: Some(0x7000_0000),
        file: None,
    }
}

#[test]
fn regions_are_listed_in_order() {
    let mem = memory();
    let regions = regions_of(&mem);
    assert_eq!(regions.len(), 2);
    assert_eq!(regions[0].guest_addr, 0x1000);
    assert_eq!(regions[0].size, 0x2000);
    assert_eq!(regions[0].host_addr, Some(host(&mem, 0x1000)));
    let file = regions[0].file.unwrap();
    assert_eq!(file.offset, 0x4000);
    assert!(file.fd >= 0);
    assert_eq!(regions[1].guest_addr, 0x8000);
    assert_eq!(regions[1].size, 0x1000);
    assert_eq!(regions[1].host_addr, Some(host(&mem, 0x8000)));
    assert!(regions[1].file.is_none());
}

#[test]
fn main_ram_is_the_first_region() {
    assert!(main_ram_shareable(&regions_of(&memory())));
    assert!(!main_ram_shareable(&vec![]));
    assert!(!main_ram_shareable(&vec![anonymous(0), plain(0x1000, 0x10000, 3)]));
}

#[test]
fn table_holds_file_backed_regions_in_order() {
    let regions = vec![
        plain(0, 0x5000_0000, 3),
        anonymous(0x1000),
        plain(0x2000, 0x6000_0000, 4),
    ];
    assert_eq!(
        memory_table(&regions, None),
        Ok(vec![
            MemoryTableEntry {
                guest_phys_addr: 0,
                memory_size: 0x1000,
                userspace_addr: 0x5000_0000,
                mmap_offset: 0x40,
                mmap_handle: 3,
            },
            MemoryTableEntry {
                guest_phys_addr: 0x2000,
                memory_size: 0x1000,
                userspace_addr: 0x6000_0000,
                mmap_offset: 0x40,
                mmap_handle: 4,
            },
        ])
    );
}

#[test]
fn table_needs_a_shareable_region() {
    assert_eq!(memory_table(&vec![anonymous(0)], None), Err(HandshakeError::NoSharedMemory));
    assert_eq!(memory_table(&vec![], None), Err(HandshakeError::NoSharedMemory));
}

#[test]
fn table_needs_mapped_regions() {
    let mut unmapped = plain(0, 0, 3);
    unmapped.host_addr = None;
    assert_eq!(
        memory_table(&vec![plain(0x4000, 0x5000, 4), unmapped], None),
        Err(HandshakeError::UnmappedRegion)
    );
    unmapped.file = None;
    assert_eq!(memory_table(&vec![unmapped], None), Err(HandshakeError::NoSharedMemory));
}

#[test]
fn vring_addresses_are_translated() {
    let mem = memory();
    assert_eq!(
        plan_vring(&mem, &queue(0x1000, 0x2fff, 0x8800)),
        VringPlan::Configured {
            config: VringConfig {
                queue_max_size: 256,
                queue_size: 128,
                flags: 0,
                desc_table_addr: host(&mem, 0x1000),
                used_ring_addr: host(&mem, 0x8000) + 0x800,
                avail_ring_addr: host(&mem, 0x1000) + 0x1fff,
                log_addr: None,
            },
            event_fd: 33,
        }
    );
}

#[test]
fn first_unmapped_part_is_named() {
    let mem = memory();
    assert_eq!(
        plan_vring(&mem, &queue(0x3000, 0x1, 0x2)),
        VringPlan::Unmapped { gpa: 0x3000 }
    );
    assert_eq!(
        plan_vring(&mem, &queue(0x1000, 0x1, 0x2)),
        VringPlan::Unmapped { gpa: 0x2 }
    );
    assert_eq!(
        plan_vring(&mem, &queue(0x1000, 0x9000, 0x1000)),
        VringPlan::Unmapped { gpa: 0x9000 }
    );
}

#[test]
fn queue_that_is_not_ready_is_passed_over() {
    let mut q = queue(0, 0, 0);
    q.ready = false;
    assert_eq!(plan_vring(&memory(), &q), VringPlan::NotReady);
}

#[test]
fn table_undoes_translation() {
    let mem = memory();
    let plan = plan_handshake(&mem, &vec![], 0, None).unwrap();
    let table = plan.table.unwrap();
    assert_eq!(table.len(), 1);
    for gpa in [0x1000u64, 0x1234, 0x2fff] {
        let addr = host(&mem, gpa);
        let e = table[0];
        assert!(e.userspace_addr <= addr && addr < e.userspace_addr + e.memory_size);
        assert_eq!(addr - e.userspace_addr + e.guest_phys_addr, gpa);
    }
}

#[test]
fn plan_covers_every_queue() {
    let mem = memory();
    let mut idle = queue(0, 0, 0);
    idle.ready = false;
    let queues = vec![queue(0x1000, 0x1100, 0x1200), idle, queue(0, 0, 0)];
    let plan = plan_handshake(&mem, &queues, 0x1_0000_0000, None).unwrap();
    assert_eq!(plan.acked_features, 0x1_0000_0000);
    let table = plan.table.unwrap();
    let regions = regions_of(&mem);
    assert_eq!(table[0].mmap_handle, regions[0].file.unwrap().fd);
    assert_eq!(table[0].mmap_offset, 0x4000);
    assert_eq!(table[0].userspace_addr, host(&mem, 0x1000));
    assert_eq!(
        plan.vrings,
        vec![
            plan_vring(&mem, &queues[0]),
            VringPlan::NotReady,
            VringPlan::Unmapped { gpa: 0 },
        ]
    );
}

#[test]
fn anonymous_memory_gives_no_table() {
    let mem =
        GuestMemoryMmap::<()>::from_ranges(&[(vm_memory::GuestAddress(0), 0x1000)]).unwrap();
    let plan = plan_handshake(&mem, &vec![], 0, None).unwrap();
    assert_eq!(plan.table, Err(HandshakeError::NoSharedMemory));
}

/// Where the guest sees the host's memory, `pages` pages at `guest_addr`.
fn shown(guest_addr: u64, pages: usize) -> Option<VirtioShmRegion> {
    Some(VirtioShmRegion {
        host_addr: 0x9000_0000,
        guest_addr,
        size: pages * 0x1000,
    })
}

#[test]
fn shown_memory_stays_out_of_the_table() {
    let regions = vec![plain(0, 0x5000_0000, 3), plain(0x1000, 0x6000_0000, 4)];
    let handles = |shm: Option<VirtioShmRegion>| -> Vec<i32> {
        memory_table(&regions, shm)
            .unwrap()
            .iter()
            .map(|e| e.mmap_handle)
            .collect()
    };
    assert_eq!(handles(None), vec![3, 4]);
    assert_eq!(handles(shown(0x1000, 1)), vec![3]);
    assert_eq!(handles(shown(0x1000, 2)), vec![3]);
    assert_eq!(handles(shown(0x2000, 1)), vec![3, 4]);
    assert_eq!(handles(shown(0x1001, 1)), vec![3, 4]);
    assert_eq!(handles(shown(0x1000, 0)), vec![3, 4]);
    assert_eq!(handles(shown(u64::MAX - 8, 4)), vec![3, 4]);
    assert_eq!(memory_table(&regions, shown(0, 2)), Err(HandshakeError::NoSharedMemory));
}

#[test]
fn conduit_region_is_not_published() {
    let mut shm = ShmManager::new(&ArchMemoryInfo {
        shm_start_addr: 0x10_0000,
        page_size: 4096,
    });
    shm.create_fs_region(0, 4096).unwrap();
    let data = (file_offset(0, 0x2000), String::from("/conduit-data"));
    shm.create_conduit_region(0x2000, Ok(data)).unwrap();
    let mut ranges = vec![(vm_memory::GuestAddress(0), 0x4000, Some(file_offset(0, 0x4000)))];
    for (addr, size, file) in shm.regions() {
        ranges.push((vm_memory::GuestAddress(addr.0), size, file));
    }
    let mem = GuestMemoryMmap::from_ranges_with_files(&ranges).unwrap();
    let conduit = shm.conduit_region().unwrap();
    let seen = VirtioShmRegion {
        host_addr: host(&mem, conduit.guest_addr.0),
        guest_addr: conduit.guest_addr.0,
        size: conduit.size,
    };
    let published = |shm: Option<VirtioShmRegion>| -> Vec<(u64, u64)> {
        plan_handshake(&mem, &vec![], 0, shm)
            .unwrap()
            .table
            .unwrap()
            .iter()
            .map(|e| (e.guest_phys_addr, e.memory_size))
            .collect()
    };
    assert_eq!(published(Some(seen)), vec![(0, 0x4000)]);
    assert_eq!(published(None), vec![(0, 0x4000), (0x10_1000, 0x2000)]);
}

#[test]
fn without_a_table_the_queues_are_left_alone() {
    let mem =
        GuestMemoryMmap::<()>::from_ranges(&[(vm_memory::GuestAddress(0), 0x1000)]).unwrap();
    let plan = plan_handshake(&mem, &vec![queue(0, 0x100, 0x200)], 0, None).unwrap();
    assert_eq!(plan.table, Err(HandshakeError::NoSharedMemory));
    assert_eq!(plan.vrings, vec![VringPlan::NotReady]);
}

#[test]
fn queues_after_an_unmapped_one_are_not_looked_at() {
    let mem = memory();
    let queues = vec![
        queue(0x1000, 0x1100, 0x1200),
        queue(0x1000, 0x4000, 0x5000),
        queue(0x1000, 0x1100, 0x1200),
    ];
    let plan = plan_handshake(&mem, &queues, 0, None).unwrap();
    assert_eq!(
        plan.vrings,
        vec![
            plan_vring(&mem, &queues[0]),
            VringPlan::Unmapped { gpa: 0x5000 },
            VringPlan::NotReady,
        ]
    );
}
