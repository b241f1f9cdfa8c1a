use vhost_user_conduit::device::{
    ActivateError, EventAction, EventSet, QueueConfig, VhostUserConduit, VhostUserConduitConfig,
    VirtioShmRegion, TYPE_VHOST_USER_CONDUIT, VQ_CTRL, VQ_DOORBELL, VQ_EVENT,
};
use vhost_user_conduit::guest_memory::DeviceQueue;
use vhost_user_conduit::handshake::{HandshakeError, VringPlan};
use vhost_user_conduit::shm::GuestAddress;
use vm_memory::{FileOffset, GuestMemoryMmap};
use vmm_sys_util::tempfile::TempFile;

type Device = VhostUserConduit<u32, u8, &'static str>;

fn device() -> Device {
    VhostUserConduit::new(
        VhostUserConduitConfig {
            socket: "/run/conduit.sock".into(),
        },
        17,
    )
}

fn anonymous() -> GuestMemoryMmap {
    GuestMemoryMmap::from_ranges(&[(vm_memory::GuestAddress(0), 0x1000)]).unwrap()
}

fn shared() -> GuestMemoryMmap {
    let file = TempFile::new().unwrap().into_file();
    file.set_len(0x1000).unwrap();
    GuestMemoryMmap::from_ranges_with_files(&[(
        vm_memory::GuestAddress(0),
        0x1000,
        Some(FileOffset::new(file, 0)),
    )])
    .unwrap()
}

#[test]
fn fresh_device() {
    let d = device();
    assert_eq!(d.avail_features(), 1 << 32);
    assert_eq!(d.acked_features(), 0);
    assert_eq!(d.device_type(), 42);
    assert_eq!(TYPE_VHOST_USER_CONDUIT, 42);
    assert_eq!(d.device_name(), "vhost-user-conduit");
    assert_eq!(d.queue_config(), [QueueConfig { size: 256 }; 3]);
    assert_eq!((VQ_CTRL, VQ_EVENT, VQ_DOORBELL), (0, 1, 2));
    assert!(!d.is_activated());
    assert!(d.shm_region().is_none());
    assert_eq!(d.activate_event(), 17);
    assert_eq!(d.config().socket.to_str(), Some("/run/conduit.sock"));
    assert_eq!(d.config().clone().socket, d.config().socket);
}

#[test]
fn what_is_set_is_found() {
    let mut d = device();
    d.set_acked_features(1 << 32);
    assert_eq!(d.acked_features(), 1 << 32);
    assert_eq!(d.avail_features(), 1 << 32);
    let region = VirtioShmRegion {
        host_addr: 1,
        guest_addr: 2,
        size: 3,
    };
    d.set_virtio_shm_region(region);
    assert_eq!(d.shm_region(), Some(&region));
}

#[test]
fn config_space_reads_as_zero() {
    let mut d = device();
    d.write_config(0, &[1, 2, 3]);
    let mut data = [7u8; 5];
    d.read_config(3, &mut data);
    assert_eq!(data, [0u8; 5]);
    let mut empty = [0u8; 0];
    d.read_config(0, &mut empty);
}

#[test]
fn activation_needs_three_queues_and_shared_ram() {
    let d = device();
    assert_eq!(d.check_activation(&shared(), 3), Ok(()));
    assert_eq!(d.check_activation(&shared(), 2), Err(ActivateError::BadActivate));
    assert_eq!(d.check_activation(&anonymous(), 3), Err(ActivateError::BadActivate));
}

#[test]
fn activation_and_reset() {
    let mut d = device();
    assert_eq!(d.activate(&shared(), vec![1, 2, 3], Ok((9, vec![Some(4), None, Some(5)])), "context"), Ok(()));
    assert!(d.is_activated());
    assert!(d.reset());
    assert!(!d.is_activated());
    assert_eq!(d.activate(&shared(), vec![1, 2, 3], Ok((9, vec![])), "again"), Ok(()));
    assert!(d.is_activated());
}

#[test]
fn failed_negotiation_is_a_bad_activation() {
    let mut d = device();
    assert_eq!(
        d.activate(&shared(), vec![1, 2, 3], Err(HandshakeError::Backend), "context"),
        Err(ActivateError::BadActivate)
    );
    assert!(!d.is_activated());
    assert_eq!(
        d.activate(&anonymous(), vec![1, 2, 3], Ok((9, vec![])), "context"),
        Err(ActivateError::BadActivate)
    );
    assert_eq!(
        d.activate(&shared(), vec![1, 2], Ok((9, vec![])), "context"),
        Err(ActivateError::BadActivate)
    );
    assert!(!d.is_activated());
}

#[test]
fn only_the_activation_event_counts() {
    let d = device();
    assert_eq!(d.process(16), EventAction::Ignore);
    assert_eq!(d.process(17), EventAction::ReadActivateEvent);
    assert_eq!(d.activate_event_read(true), EventAction::Unregister { fd: 17 });
    assert_eq!(d.activate_event_read(false), EventAction::Ignore);
    assert_eq!(d.interest_list(), vec![(EventSet::In, 17)]);
}

#[test]
fn only_activation_and_reset_change_whether_it_is_in_use() {
    let mut d = device();
    let region = VirtioShmRegion {
        host_addr: 1,
        guest_addr: 2,
        size: 3,
    };
    assert!(d.reset());
    assert!(!d.is_activated());
    assert_eq!(d.activate(&shared(), vec![1, 2, 3], Ok((1, vec![None; 3])), "first"), Ok(()));
    d.set_virtio_shm_region(region);
    d.set_acked_features(3);
    d.write_config(0, &[1]);
    assert!(d.is_activated());
    assert_eq!(
        d.activate(&shared(), vec![1, 2, 3], Err(HandshakeError::System), "second"),
        Err(ActivateError::BadActivate)
    );
    assert!(d.is_activated());
    assert!(d.reset());
    assert!(!d.is_activated());
    assert_eq!(
        d.activate(&anonymous(), vec![1, 2, 3], Ok((1, vec![])), "third"),
        Err(ActivateError::BadActivate)
    );
    d.set_acked_features(4);
    assert!(!d.is_activated());
    assert_eq!(d.shm_region(), Some(&region));
    assert_eq!(d.avail_features(), 1 << 32);
    assert_eq!(d.activate_event(), 17);
}

#[test]
fn negotiation_is_planned_with_what_the_device_holds() {
    let mut d = device();
    d.set_acked_features(0x1_0000_0001);
    let queue = DeviceQueue {
        ready: true,
        actual_size: 64,
        desc_table: GuestAddress(0),
        avail_ring: GuestAddress(0x9000),
        used_ring: GuestAddress(0x100),
        event_fd: 5,
    };
    let plan = d.plan_negotiation(&shared(), &vec![queue]).unwrap();
    assert_eq!(plan.acked_features, 0x1_0000_0001);
    assert_eq!(plan.table.unwrap().len(), 1);
    assert_eq!(plan.vrings, vec![VringPlan::Unmapped { gpa: 0x9000 }]);
    d.set_virtio_shm_region(VirtioShmRegion {
        host_addr: 0,
        guest_addr: 0,
        size: 0x1000,
    });
    let plan = d.plan_negotiation(&shared(), &vec![queue]).unwrap();
    assert_eq!(plan.table, Err(HandshakeError::NoSharedMemory));
}
