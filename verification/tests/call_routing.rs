use vhost_user_conduit::call_routing::{CallRouter, RouteStep};

const READ: RouteStep = RouteStep::Read { len: 64 };

fn waiting() -> CallRouter {
    let mut r = CallRouter::new();
    assert_eq!(r.step(), RouteStep::OpenQueue);
    r.advance(5, false);
    assert_eq!(r.step(), RouteStep::Register);
    r.advance(0, false);
    assert_eq!(r.step(), RouteStep::Wait);
    r
}

#[test]
fn a_wakeup_is_drained_and_signalled_once() {
    let mut r = waiting();
    r.advance(1, false);
    assert_eq!(r.step(), READ);
    r.advance(64, false);
    assert_eq!(r.step(), READ);
    r.advance(3, false);
    assert_eq!(r.step(), READ);
    r.advance(-1, false);
    assert_eq!(r.step(), RouteStep::Signal);
    r.advance(0, false);
    assert_eq!(r.step(), RouteStep::Wait);
}

#[test]
fn end_of_stream_ends_the_drain() {
    let mut r = waiting();
    r.advance(1, false);
    r.advance(0, false);
    assert_eq!(r.step(), RouteStep::Signal);
}

#[test]
fn interrupted_and_empty_waits_go_on() {
    let mut r = waiting();
    r.advance(-1, true);
    assert_eq!(r.step(), RouteStep::Wait);
    r.advance(0, false);
    assert_eq!(r.step(), RouteStep::Wait);
}

#[test]
fn failed_wait_closes_the_queue() {
    let mut r = waiting();
    r.advance(-1, false);
    assert_eq!(r.step(), RouteStep::CloseQueue);
    r.advance(0, false);
    assert_eq!(r.step(), RouteStep::Stop);
    r.advance(1, false);
    assert_eq!(r.step(), RouteStep::Stop);
}

#[test]
fn failed_registration_closes_the_queue() {
    let mut r = CallRouter::new();
    r.advance(5, false);
    r.advance(-1, false);
    assert_eq!(r.step(), RouteStep::CloseQueue);
}

#[test]
fn no_queue_no_routing() {
    let mut r = CallRouter::new();
    r.advance(-1, true);
    assert_eq!(r.step(), RouteStep::Stop);
}
