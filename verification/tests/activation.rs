use vhost_user_conduit::activation::{Activation, ActivationStep};
use vhost_user_conduit::device::ActivateError;

/// The steps that come up when they go as `outcomes` says.
fn steps(checked: Result<(), ActivateError>, outcomes: &[bool]) -> Vec<ActivationStep> {
    let mut activation = Activation::new(checked);
    let mut steps = vec![activation.step()];
    for ok in outcomes {
        activation.advance(*ok);
        steps.push(activation.step());
    }
    steps
}

const REFUSE: ActivationStep = ActivationStep::Refuse {
    error: ActivateError::BadActivate,
};

#[test]
fn activation_that_goes_well() {
    assert_eq!(
        steps(Ok(()), &[true; 6]),
        vec![
            ActivationStep::Negotiate,
            ActivationStep::QuerySharedObject,
            ActivationStep::RouteCalls,
            ActivationStep::Conclude { negotiated: true },
            ActivationStep::WriteEvent,
            ActivationStep::Finish,
            ActivationStep::Finish,
        ]
    );
}

#[test]
fn nothing_is_done_for_a_device_that_cannot_be_activated() {
    assert_eq!(
        steps(Err(ActivateError::BadActivate), &[true, false, true]),
        vec![REFUSE; 4]
    );
}

#[test]
fn failed_negotiation_routes_no_calls_and_writes_no_event() {
    for concluded in [false, true] {
        assert_eq!(
            steps(Ok(()), &[false, concluded, true]),
            vec![
                ActivationStep::Negotiate,
                ActivationStep::Conclude { negotiated: false },
                REFUSE,
                REFUSE,
            ]
        );
    }
}

#[test]
fn shared_memory_calls_and_event_do_not_matter() {
    let expected = steps(Ok(()), &[true; 5]);
    for shared in [false, true] {
        for routed in [false, true] {
            for written in [false, true] {
                assert_eq!(steps(Ok(()), &[true, shared, routed, true, written]), expected);
            }
        }
    }
}

#[test]
fn event_comes_once_and_last() {
    for n in 0..32u32 {
        let outcomes: Vec<bool> = (0..5).map(|bit| n & (1 << bit) != 0).collect();
        let taken = steps(Ok(()), &outcomes);
        let written = taken.iter().filter(|s| **s == ActivationStep::WriteEvent).count();
        let finished = taken[5] == ActivationStep::Finish;
        assert_eq!(written, finished as usize);
        assert_eq!(finished, outcomes[0] && outcomes[3]);
        assert!(finished || taken[5] == REFUSE);
        assert!(!finished || taken[4] == ActivationStep::WriteEvent);
    }
}

#[test]
fn device_that_takes_no_note_is_refused() {
    assert_eq!(
        steps(Ok(()), &[true, true, true, false]).last(),
        Some(&REFUSE)
    );
}
