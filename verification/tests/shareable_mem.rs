use vhost_user_conduit::shareable_mem::{create_guest_ram_shm, region_name, ShmStep};

#[test]
fn region_name_holds_process_and_index() {
    assert_eq!(region_name(4711, 0), "/conduit-guest-ram-4711-0");
    assert_eq!(region_name(0, 10), "/conduit-guest-ram-0-10");
    assert_eq!(
        region_name(u32::MAX, usize::MAX),
        format!("/conduit-guest-ram-{}-{}", u32::MAX, usize::MAX)
    );
    assert_eq!(region_name(1234567890, 9876), "/conduit-guest-ram-1234567890-9876");
}

#[test]
fn region_names_differ() {
    assert_ne!(region_name(1, 11), region_name(11, 1));
    assert_ne!(region_name(1, 11), region_name(111, 1));
    assert_ne!(region_name(7, 0), region_name(7, 1));
    assert!(!region_name(7, 0).contains('\0'));
}

#[test]
fn creation_succeeds() {
    let mut c = create_guest_ram_shm(7, 1, 0x4000);
    assert_eq!(c.name(), "/conduit-guest-ram-7-1");
    assert_eq!(c.step(), ShmStep::Unlink);
    c.advance(-1, 2);
    assert_eq!(c.step(), ShmStep::CreateExclusive { mode: 0o600 });
    c.advance(9, 0);
    assert_eq!(c.step(), ShmStep::Truncate { fd: 9, length: 0x4000 });
    c.advance(0, 0);
    assert_eq!(c.step(), ShmStep::Finish { fd: 9 });
    c.advance(-1, 5);
    assert_eq!(c.step(), ShmStep::Finish { fd: 9 });
    assert_eq!(c.name(), "/conduit-guest-ram-7-1");
}

#[test]
fn open_fails() {
    let mut c = create_guest_ram_shm(7, 1, 0x4000);
    c.advance(0, 0);
    c.advance(-1, 17);
    assert_eq!(c.step(), ShmStep::Fail { errno: 17 });
    c.advance(0, 0);
    assert_eq!(c.step(), ShmStep::Fail { errno: 17 });
}

#[test]
fn truncate_fails_and_the_object_is_discarded() {
    let mut c = create_guest_ram_shm(7, 1, 0x4000);
    c.advance(0, 0);
    c.advance(0, 0);
    assert_eq!(c.step(), ShmStep::Truncate { fd: 0, length: 0x4000 });
    c.advance(-1, 28);
    assert_eq!(c.step(), ShmStep::Discard { fd: 0, errno: 28 });
    c.advance(-1, 9);
    assert_eq!(c.step(), ShmStep::Fail { errno: 28 });
}
