use vhost_user_conduit::guest_memory::MemoryTableEntry;
use vhost_user_conduit::handshake::{
    Handshake, HandshakeError, HandshakePlan, Reply, Request, VringConfig, VringPlan,
};

const NONBLOCK: i32 = 0o4000;

fn entry() -> MemoryTableEntry {
    MemoryTableEntry {
        guest_phys_addr: 0,
        memory_size: 0x1000,
        userspace_addr: 0x5000,
        mmap_offset: 0,
        mmap_handle: 3,
    }
}

fn config(at: u64) -> VringConfig {
    VringConfig {
        queue_max_size: 256,
        queue_size: 64,
        flags: 0,
        desc_table_addr: at,
        used_ring_addr: at + 1,
        avail_ring_addr: at + 2,
        log_addr: None,
    }
}

fn configured(at: u64, event_fd: i32) -> VringPlan {
    VringPlan::Configured {
        config: config(at),
        event_fd,
    }
}

fn start(vrings: Vec<VringPlan>) -> Handshake {
    Handshake::new(
        HandshakePlan {
            acked_features: 0x1_0000_0000,
            table: Ok(vec![entry()]),
            vrings,
        },
        NONBLOCK,
    )
}

/// Goes on until the memory table is to be sent.
fn up_to_mem_table(h: &mut Handshake) {
    h.advance(Reply::Done);
    h.advance(Reply::Done);
    h.advance(Reply::Value(0x1_4000_0000));
    h.advance(Reply::Done);
    h.advance(Reply::Value(0x201));
    h.advance(Reply::Done);
    assert_eq!(h.request(), Request::SetMemTable);
}

/// Sets up one queue, for which the sockets `local` and `remote` are opened.
fn set_up(h: &mut Handshake, index: usize, at: u64, event_fd: i32, local: i32, remote: i32) {
    assert_eq!(h.request(), Request::SetVringNum { index, num: 64 });
    h.advance(Reply::Done);
    assert_eq!(h.request(), Request::SetVringAddr { index, config: config(at) });
    h.advance(Reply::Done);
    assert_eq!(h.request(), Request::SetVringBase { index, base: 0 });
    h.advance(Reply::Done);
    assert_eq!(h.request(), Request::DupKick { index, event_fd });
    h.advance(Reply::Status(event_fd + 100));
    assert_eq!(h.request(), Request::SetVringKick { index, kick_fd: event_fd + 100 });
    h.advance(Reply::Done);
    assert_eq!(h.request(), Request::OpenCallPair { index });
    h.advance(Reply::Pair { status: 0, local, remote });
    assert_eq!(h.request(), Request::GetFileFlags { index, local, remote });
    h.advance(Reply::Status(2));
    assert_eq!(
        h.request(),
        Request::SetFileFlags { index, local, remote, flags: 2 | NONBLOCK }
    );
    h.advance(Reply::Status(0));
    assert_eq!(h.request(), Request::SetVringCall { index, local, remote });
    h.advance(Reply::Done);
    assert_eq!(h.request(), Request::SetVringEnable { index, enable: true });
    h.advance(Reply::Done);
}

#[test]
fn whole_negotiation() {
    let mut h = start(vec![configured(0x100, 10), VringPlan::NotReady, configured(0x200, 12)]);
    assert_eq!(h.request(), Request::Connect { queues: 3, need_reply: true });
    h.advance(Reply::Done);
    assert_eq!(h.request(), Request::SetOwner);
    h.advance(Reply::Done);
    assert_eq!(h.request(), Request::GetFeatures);
    h.advance(Reply::Value(0x1_4000_0003));
    assert_eq!(h.request(), Request::SetFeatures { features: 0x1_4000_0000 });
    h.advance(Reply::Done);
    assert_eq!(h.request(), Request::GetProtocolFeatures);
    h.advance(Reply::Value(0x201));
    assert_eq!(h.request(), Request::SetProtocolFeatures { features: 0x201 });
    h.advance(Reply::Done);
    assert_eq!(h.request(), Request::SetMemTable);
    assert_eq!(h.memory_table(), Some(&vec![entry()]));
    h.advance(Reply::Done);
    set_up(&mut h, 0, 0x100, 10, 20, 21);
    set_up(&mut h, 2, 0x200, 12, 30, 31);
    assert_eq!(h.request(), Request::Finish);
    h.advance(Reply::Refused);
    assert_eq!(h.request(), Request::Finish);
    assert_eq!(h.into_call_local_fds(), vec![Some(20), None, Some(30)]);
}

#[test]
fn features_are_those_of_both_sides() {
    let mut h = start(vec![]);
    h.advance(Reply::Done);
    h.advance(Reply::Done);
    h.advance(Reply::Value(0x7));
    assert_eq!(h.request(), Request::SetFeatures { features: 0 });
    let mut h = start(vec![]);
    h.advance(Reply::Done);
    h.advance(Reply::Done);
    h.advance(Reply::Value(u64::MAX));
    assert_eq!(h.request(), Request::SetFeatures { features: 0x1_4000_0000 });
}

#[test]
fn backend_that_cannot_be_reached() {
    let mut h = start(vec![]);
    h.advance(Reply::Refused);
    assert_eq!(h.request(), Request::Fail { error: HandshakeError::Backend });
    h.advance(Reply::Done);
    assert_eq!(h.request(), Request::Fail { error: HandshakeError::Backend });
}

#[test]
fn reply_of_the_wrong_kind_is_a_failure() {
    let mut h = start(vec![]);
    h.advance(Reply::Done);
    h.advance(Reply::Done);
    h.advance(Reply::Done);
    assert_eq!(h.request(), Request::Fail { error: HandshakeError::Backend });
}

#[test]
fn without_shared_memory_it_fails_before_the_table() {
    let mut h = Handshake::new(
        HandshakePlan {
            acked_features: 0,
            table: Err(HandshakeError::NoSharedMemory),
            vrings: vec![],
        },
        NONBLOCK,
    );
    assert!(h.memory_table().is_none());
    h.advance(Reply::Done);
    h.advance(Reply::Done);
    h.advance(Reply::Value(0x4000_0000));
    assert_eq!(h.request(), Request::SetFeatures { features: 0x4000_0000 });
    h.advance(Reply::Done);
    h.advance(Reply::Value(0));
    assert_eq!(h.request(), Request::SetProtocolFeatures { features: 0 });
    h.advance(Reply::Done);
    assert_eq!(h.request(), Request::Fail { error: HandshakeError::NoSharedMemory });
}

#[test]
fn unmapped_queue_fails_after_the_queues_before_it() {
    let mut h = start(vec![configured(0x100, 10), VringPlan::Unmapped { gpa: 0xdead }]);
    up_to_mem_table(&mut h);
    h.advance(Reply::Done);
    set_up(&mut h, 0, 0x100, 10, 20, 21);
    assert_eq!(
        h.request(),
        Request::Fail { error: HandshakeError::UnmappedAddress { gpa: 0xdead } }
    );
}

#[test]
fn no_ready_queue_still_succeeds() {
    let mut h = start(vec![VringPlan::NotReady, VringPlan::NotReady]);
    up_to_mem_table(&mut h);
    h.advance(Reply::Done);
    assert_eq!(h.request(), Request::Finish);
    assert_eq!(h.into_call_local_fds(), vec![None, None]);
}

#[test]
fn kick_that_cannot_be_duplicated() {
    let mut h = start(vec![configured(0x100, 10)]);
    up_to_mem_table(&mut h);
    h.advance(Reply::Done);
    h.advance(Reply::Done);
    h.advance(Reply::Done);
    h.advance(Reply::Done);
    assert_eq!(h.request(), Request::DupKick { index: 0, event_fd: 10 });
    h.advance(Reply::Status(-1));
    assert_eq!(h.request(), Request::Fail { error: HandshakeError::System });
}

/// Goes on until the sockets of the only queue are to be opened.
fn up_to_pair() -> Handshake {
    let mut h = start(vec![configured(0x100, 10)]);
    up_to_mem_table(&mut h);
    h.advance(Reply::Done);
    h.advance(Reply::Done);
    h.advance(Reply::Done);
    h.advance(Reply::Done);
    h.advance(Reply::Status(0));
    h.advance(Reply::Done);
    assert_eq!(h.request(), Request::OpenCallPair { index: 0 });
    h
}

#[test]
fn pair_that_cannot_be_opened() {
    let mut h = up_to_pair();
    h.advance(Reply::Pair { status: -1, local: -1, remote: -1 });
    assert_eq!(h.request(), Request::Fail { error: HandshakeError::System });
}

#[test]
fn pair_is_closed_when_flags_cannot_be_read() {
    let mut h = up_to_pair();
    h.advance(Reply::Pair { status: 0, local: 5, remote: 6 });
    h.advance(Reply::Status(-1));
    assert_eq!(h.request(), Request::ClosePair { local: 5, remote: 6 });
    h.advance(Reply::Done);
    assert_eq!(h.request(), Request::Fail { error: HandshakeError::System });
}

#[test]
fn pair_is_closed_when_flags_cannot_be_set() {
    let mut h = up_to_pair();
    h.advance(Reply::Pair { status: 0, local: 5, remote: 6 });
    h.advance(Reply::Status(0));
    h.advance(Reply::Status(-1));
    assert_eq!(h.request(), Request::ClosePair { local: 5, remote: 6 });
    h.advance(Reply::Refused);
    assert_eq!(h.request(), Request::Fail { error: HandshakeError::System });
    assert_eq!(h.into_call_local_fds(), vec![None]);
}

#[test]
fn refused_call_socket_is_not_kept() {
    let mut h = up_to_pair();
    h.advance(Reply::Pair { status: 0, local: 5, remote: 6 });
    h.advance(Reply::Status(0));
    h.advance(Reply::Status(0));
    h.advance(Reply::Refused);
    assert_eq!(h.request(), Request::Fail { error: HandshakeError::Backend });
    assert_eq!(h.into_call_local_fds(), vec![None]);
}

#[test]
fn favourable_negotiation_succeeds() {
    let mut h = start(vec![configured(0x100, 10), configured(0x200, 11), configured(0x300, 12)]);
    let mut requests: usize = 0;
    loop {
        let reply = match h.request() {
            Request::Finish => break,
            Request::Fail { .. } => panic!("failed"),
            Request::GetFeatures | Request::GetProtocolFeatures => Reply::Value(1),
            Request::DupKick { .. }
            | Request::GetFileFlags { .. }
            | Request::SetFileFlags { .. } => Reply::Status(0),
            Request::OpenCallPair { .. } => Reply::Pair { status: 0, local: 1, remote: 2 },
            _ => Reply::Done,
        };
        h.advance(reply);
        requests += 1;
    }
    assert_eq!(requests, 37);
}

#[test]
fn negotiation_ends_whatever_the_replies() {
    let replies = [
        Reply::Done,
        Reply::Refused,
        Reply::Value(0),
        Reply::Status(0),
        Reply::Pair { status: 0, local: 1, remote: 2 },
    ];
    for first in replies {
        for second in replies {
            let mut h = start(vec![configured(0x100, 10), configured(0x200, 11)]);
            for _ in 0..29 {
                let over = matches!(h.request(), Request::Finish | Request::Fail { .. });
                let reply = match h.request() {
                    Request::SetVringKick { .. } => second,
                    Request::OpenCallPair { .. } => first,
                    Request::GetFeatures | Request::GetProtocolFeatures => Reply::Value(1),
                    Request::DupKick { .. }
                    | Request::GetFileFlags { .. }
                    | Request::SetFileFlags { .. } => Reply::Status(3),
                    _ => Reply::Done,
                };
                let before = h.request();
                h.advance(reply);
                assert!(!over || h.request() == before);
            }
            assert!(matches!(h.request(), Request::Finish | Request::Fail { .. }));
        }
    }
}

#[test]
fn sockets_of_a_failed_negotiation_are_still_known() {
    let mut h = start(vec![VringPlan::NotReady, configured(0x100, 10), configured(0x200, 11)]);
    up_to_mem_table(&mut h);
    h.advance(Reply::Done);
    set_up(&mut h, 1, 0x100, 10, 20, 21);
    h.advance(Reply::Refused);
    assert_eq!(h.request(), Request::Fail { error: HandshakeError::Backend });
    assert_eq!(h.into_call_local_fds(), vec![None, Some(20), None]);
}

#[test]
fn unmapped_queue_leaves_later_queues_alone() {
    let mut h = start(vec![
        VringPlan::NotReady,
        VringPlan::Unmapped { gpa: 0xdead },
        configured(0x100, 10),
    ]);
    up_to_mem_table(&mut h);
    h.advance(Reply::Done);
    for _ in 0..3 {
        assert_eq!(
            h.request(),
            Request::Fail { error: HandshakeError::UnmappedAddress { gpa: 0xdead } }
        );
        h.advance(Reply::Done);
    }
}

#[test]
fn invalid_input_is_what_the_guest_or_its_memory_gave() {
    assert!(HandshakeError::NoSharedMemory.is_invalid_input());
    assert!(HandshakeError::UnmappedAddress { gpa: 0 }.is_invalid_input());
    assert!(!HandshakeError::Backend.is_invalid_input());
    assert!(!HandshakeError::System.is_invalid_input());
    assert!(!HandshakeError::UnmappedRegion.is_invalid_input());
}
