use vhost_user_conduit::shm::{ArchMemoryInfo, Error, GuestAddress, ShmManager};
use vm_memory::FileOffset;
use vmm_sys_util::tempfile::TempFile;

const START: u64 = 0x1_0000_0000;

fn manager_at(start: u64) -> ShmManager {
    ShmManager::new(&ArchMemoryInfo {
        shm_start_addr: start,
        page_size: 4096,
    })
}

fn manager() -> ShmManager {
    manager_at(START)
}

fn data_shm() -> (FileOffset, String) {
    let file = TempFile::new().unwrap().into_file();
    (FileOffset::new(file, 0), String::from("/conduit-data"))
}

#[test]
fn new_manager_has_no_regions() {
    let m = manager();
    assert!(m.regions().is_empty());
    assert!(m.fs_region(0).is_none());
    assert!(m.conduit_region().is_none());
    assert!(m.gpu_region().is_none());
}

#[test]
fn regions_follow_each_other_in_whole_pages() {
    let mut m = manager();
    m.create_fs_region(0, 1).unwrap();
    m.create_gpu_region(4097).unwrap();
    m.create_fs_region(1, 4096).unwrap();
    let a = m.fs_region(0).unwrap();
    assert_eq!(a.guest_addr, GuestAddress(START));
    assert_eq!(a.size, 4096);
    let b = m.gpu_region().unwrap();
    assert_eq!(b.guest_addr, GuestAddress(START + 4096));
    assert_eq!(b.size, 8192);
    let c = m.fs_region(1).unwrap();
    assert_eq!(c.guest_addr, GuestAddress(START + 12288));
    assert_eq!(c.size, 4096);
    assert!(c.file_offset.is_none());
    assert!(c.host_name.is_none());
}

#[test]
fn listing_is_fs_by_index_then_conduit_then_gpu() {
    let mut m = manager();
    m.create_gpu_region(4096).unwrap();
    m.create_fs_region(7, 4096).unwrap();
    m.create_conduit_region(4096, Ok(data_shm())).unwrap();
    m.create_fs_region(2, 4096).unwrap();
    let listed: Vec<(u64, usize, bool)> = m
        .regions()
        .iter()
        .map(|r| (r.0 .0, r.1, r.2.is_some()))
        .collect();
    assert_eq!(
        listed,
        vec![
            (START + 0x3000, 4096, false),
            (START + 0x1000, 4096, false),
            (START + 0x2000, 4096, true),
            (START, 4096, false),
        ]
    );
}

#[test]
fn listed_regions_do_not_overlap() {
    let mut m = manager();
    for (i, size) in [1usize, 5000, 0, 4096, 12345].iter().enumerate() {
        m.create_fs_region(10 - i, *size).unwrap();
    }
    m.create_gpu_region(99).unwrap();
    let regions = m.regions();
    assert_eq!(regions.len(), 6);
    for i in 0..regions.len() {
        assert_eq!(regions[i].0 .0 % 4096, 0);
        assert_eq!(regions[i].1 % 4096, 0);
        for j in 0..i {
            let (a, b) = (&regions[i], &regions[j]);
            assert!(a.0 .0 + a.1 as u64 <= b.0 .0 || b.0 .0 + b.1 as u64 <= a.0 .0);
        }
    }
}

#[test]
fn listing_clones_the_same_file() {
    let mut m = manager();
    let file = TempFile::new().unwrap().into_file();
    file.set_len(0x3000).unwrap();
    m.create_conduit_region(1, Ok((FileOffset::new(file, 0x1000), String::from("/x"))))
        .unwrap();
    let regions = m.regions();
    let offset = regions[0].2.as_ref().unwrap();
    assert_eq!(offset.start(), 0x1000);
    assert_eq!(offset.file().metadata().unwrap().len(), 0x3000);
    let copy = m.conduit_region().unwrap().clone();
    assert_eq!(copy.size, 4096);
    assert_eq!(copy.host_name, Some(String::from("/x")));
    assert_eq!(copy.file_offset.unwrap().start(), 0x1000);
}

#[test]
fn second_gpu_region_is_refused() {
    let mut m = manager();
    m.create_gpu_region(4096).unwrap();
    assert!(matches!(m.create_gpu_region(4096), Err(Error::DuplicatedGpuRegion)));
    // Also for a size that could not be rounded.
    assert!(matches!(m.create_gpu_region(usize::MAX), Err(Error::DuplicatedGpuRegion)));
    assert_eq!(m.gpu_region().unwrap().guest_addr, GuestAddress(START));
    m.create_fs_region(0, 1).unwrap();
    assert_eq!(m.fs_region(0).unwrap().guest_addr, GuestAddress(START + 4096));
}

#[test]
fn conduit_region_has_file_and_name() {
    let mut m = manager();
    assert_eq!(m.conduit_shm_size(5000).unwrap(), 8192);
    m.create_conduit_region(5000, Ok(data_shm())).unwrap();
    let r = m.conduit_region().unwrap();
    assert_eq!(r.guest_addr, GuestAddress(START));
    assert_eq!(r.size, 8192);
    assert_eq!(r.host_name, Some(String::from("/conduit-data")));
    assert_eq!(r.file_offset.as_ref().unwrap().start(), 0);
}

#[test]
fn second_conduit_region_is_refused() {
    let mut m = manager();
    m.create_conduit_region(1, Ok(data_shm())).unwrap();
    assert!(matches!(m.conduit_shm_size(1), Err(Error::DuplicatedConduitRegion)));
    assert!(matches!(
        m.create_conduit_region(1, Ok(data_shm())),
        Err(Error::DuplicatedConduitRegion)
    ));
    m.create_fs_region(0, 1).unwrap();
    assert_eq!(m.fs_region(0).unwrap().guest_addr, GuestAddress(START + 4096));
}

#[test]
fn failed_data_shm_leaves_the_addresses_taken() {
    let mut m = manager();
    let failed = m.create_conduit_region(1, Err(std::io::Error::from_raw_os_error(12)));
    match failed {
        Err(Error::ConduitShmCreate(e)) => assert_eq!(e.raw_os_error(), Some(12)),
        _ => panic!("wrong result"),
    }
    assert!(m.conduit_region().is_none());
    assert!(m.regions().is_empty());
    m.create_conduit_region(1, Ok(data_shm())).unwrap();
    assert_eq!(m.conduit_region().unwrap().guest_addr, GuestAddress(START + 4096));
}

#[test]
fn fs_region_is_replaced() {
    let mut m = manager();
    m.create_fs_region(3, 1).unwrap();
    m.create_fs_region(3, 8192).unwrap();
    assert_eq!(m.regions().len(), 1);
    let r = m.fs_region(3).unwrap();
    assert_eq!(r.guest_addr, GuestAddress(START + 4096));
    assert_eq!(r.size, 8192);
}

#[test]
fn address_space_can_be_exhausted() {
    let mut m = manager_at(u64::MAX - 4096);
    assert!(matches!(m.create_fs_region(0, 8192), Err(Error::OutOfSpace)));
    assert!(matches!(m.create_gpu_region(4097), Err(Error::OutOfSpace)));
    assert!(matches!(m.conduit_shm_size(4097), Err(Error::OutOfSpace)));
    assert!(matches!(
        m.create_conduit_region(4097, Ok(data_shm())),
        Err(Error::OutOfSpace)
    ));
    assert!(m.regions().is_empty());
    m.create_fs_region(0, 4096).unwrap();
    assert_eq!(m.fs_region(0).unwrap().guest_addr, GuestAddress(u64::MAX - 4096));
}

#[test]
fn created_regions_are_back_to_back() {
    let mut m = manager_at(u64::MAX - 0x8000);
    let first = m.create_region(1).unwrap();
    assert!(matches!(m.create_region(0x8000), Err(Error::OutOfSpace)));
    assert!(matches!(m.create_region(0x8001), Err(Error::OutOfSpace)));
    let second = m.create_region(4097).unwrap();
    assert_eq!(second.guest_addr.0, first.guest_addr.0 + first.size as u64);
    assert_eq!((first.size, second.size), (4096, 8192));
    assert!(first.file_offset.is_none() && first.host_name.is_none());
    assert!(m.regions().is_empty());
}

#[test]
fn only_the_conduit_region_has_a_file() {
    let mut m = manager();
    m.create_fs_region(0, 1).unwrap();
    m.create_gpu_region(1).unwrap();
    assert!(m.create_conduit_region(1, Err(std::io::Error::from_raw_os_error(12))).is_err());
    assert!(m.regions().iter().all(|r| r.2.is_none()));
    m.create_conduit_region(1, Ok(data_shm())).unwrap();
    m.create_fs_region(1, 1).unwrap();
    let conduit = m.conduit_region().unwrap().guest_addr.0;
    for r in m.regions() {
        assert_eq!(r.2.is_some(), r.0 .0 == conduit);
    }
}
