//! The order in which a device is put in use.

use vm_memory::GuestMemoryMmap;
use vstd::prelude::*;

use crate::device::{ActivateError, RawFd};
use crate::handshake::HandshakeError;

verus! {

/// What is to be done next.
#[derive(Clone, Copy, Debug, PartialEq, Eq, Structural)]
pub enum ActivationStep {
    /// Negotiate with the backend.
    Negotiate,
    /// Ask the backend for its shared memory. The answer only tells that it is there.
    QuerySharedObject,
    /// Start to turn the backend's calls into interrupts, for each socket that is held.
    RouteCalls,
    /// Tell the device how the negotiation ended.
    Conclude { negotiated: bool },
    /// Tell by the activation event that the device is in use.
    WriteEvent,
    /// Nothing: the device is in use.
    Finish,
    /// Nothing: the device is as it was before.
    Refuse { error: ActivateError },
}

/// What is done first, given whether the device can be activated.
pub open spec fn first_step(checked: Result<(), ActivateError>) -> ActivationStep {
    match checked {
        Ok(()) => ActivationStep::Negotiate,
        Err(error) => ActivationStep::Refuse { error },
    }
}

/// What is done after a step, given whether it went well.
pub open spec fn following_step(step: ActivationStep, ok: bool) -> ActivationStep {
    match step {
        ActivationStep::Negotiate => if ok {
            ActivationStep::QuerySharedObject
        } else {
            ActivationStep::Conclude { negotiated: false }
        },
        ActivationStep::QuerySharedObject => ActivationStep::RouteCalls,
        ActivationStep::RouteCalls => ActivationStep::Conclude { negotiated: true },
        ActivationStep::Conclude { negotiated } => if negotiated && ok {
            ActivationStep::WriteEvent
        } else {
            ActivationStep::Refuse { error: ActivateError::BadActivate }
        },
        ActivationStep::WriteEvent => ActivationStep::Finish,
        ActivationStep::Finish => step,
        ActivationStep::Refuse { .. } => step,
    }
}

/// An activation in progress.
pub struct Activation {
    step: ActivationStep,
}

impl View for Activation {
    type V = ActivationStep;

    closed spec fn view(&self) -> ActivationStep {
        self.step
    }
}

impl Activation {
    /// Begins with what was found about the device and the guest's memory.
    pub fn new(checked: Result<(), ActivateError>) -> (activation: Self)
        ensures
            activation@ == first_step(checked),
    {
        let step = match checked {
            Ok(()) => ActivationStep::Negotiate,
            Err(error) => ActivationStep::Refuse { error },
        };
        Activation { step }
    }

    /// What is to be done next.
    pub fn step(&self) -> (step: ActivationStep)
        ensures
            step == self@,
    {
        self.step
    }

    /// Takes note of whether the step went well.
    pub fn advance(&mut self, ok: bool)
        ensures
            final(self)@ == following_step(old(self)@, ok),
    {
        self.step = match self.step {
            ActivationStep::Negotiate => if ok {
                ActivationStep::QuerySharedObject
            } else {
                ActivationStep::Conclude { negotiated: false }
            },
            ActivationStep::QuerySharedObject => ActivationStep::RouteCalls,
            ActivationStep::RouteCalls => ActivationStep::Conclude { negotiated: true },
            ActivationStep::Conclude { negotiated } => if negotiated && ok {
                ActivationStep::WriteEvent
            } else {
                ActivationStep::Refuse { error: ActivateError::BadActivate }
            },
            ActivationStep::WriteEvent => ActivationStep::Finish,
            ActivationStep::Finish => ActivationStep::Finish,
            ActivationStep::Refuse { error } => ActivationStep::Refuse { error },
        };
    }
}

/// `steps` are the steps of an activation as they come up, and `outcomes` tell of each
/// but the last whether it went well.
pub open spec fn is_activation(
    checked: Result<(), ActivateError>,
    steps: Seq<ActivationStep>,
    outcomes: Seq<bool>,
) -> bool {
    &&& steps.len() == outcomes.len() + 1
    &&& steps[0] == first_step(checked)
    &&& forall|k: int|
        0 <= k < outcomes.len() ==> #[trigger] steps[k + 1] == following_step(
            steps[k],
            outcomes[k],
        )
}

/// The outcome of the step can change what is done.
pub open spec fn outcome_matters(step: ActivationStep) -> bool {
    step is Negotiate || step is Conclude
}

/// Where the device cannot be activated nothing is done at all, and the error is the
/// one that was found.
pub proof fn law_nothing_before_the_check(
    error: ActivateError,
    steps: Seq<ActivationStep>,
    outcomes: Seq<bool>,
    k: int,
)
    requires
        is_activation(Err(error), steps, outcomes),
        0 <= k < steps.len(),
    ensures
        steps[k] == (ActivationStep::Refuse { error }),
    decreases k,
{
    if k > 0 {
        law_nothing_before_the_check(error, steps, outcomes, k - 1);
        assert(steps[k - 1 + 1] == following_step(steps[k - 1], outcomes[k - 1]));
    }
}

/// Whether the backend shows its shared memory, whether the sockets can all be
/// watched, and whether the event can be written changes nothing: two activations that
/// differ only in that take the same steps.
pub proof fn law_only_negotiation_and_conclusion_matter(
    checked: Result<(), ActivateError>,
    steps: Seq<ActivationStep>,
    outcomes: Seq<bool>,
    other_steps: Seq<ActivationStep>,
    other_outcomes: Seq<bool>,
)
    requires
        is_activation(checked, steps, outcomes),
        is_activation(checked, other_steps, other_outcomes),
        outcomes.len() == other_outcomes.len(),
        forall|k: int|
            0 <= k < outcomes.len() && outcome_matters(steps[k]) ==> #[trigger] outcomes[k]
                == other_outcomes[k],
    ensures
        steps == other_steps,
    decreases outcomes.len(),
{
    if outcomes.len() > 0 {
        let n = outcomes.len() - 1;
        lemma_shorter_activation(checked, steps, outcomes);
        lemma_shorter_activation(checked, other_steps, other_outcomes);
        assert forall|k: int|
            0 <= k < outcomes.drop_last().len() && outcome_matters(
                steps.drop_last()[k],
            ) implies #[trigger] outcomes.drop_last()[k] == other_outcomes.drop_last()[k] by {
            assert(outcomes[k] == other_outcomes[k]);
        }
        law_only_negotiation_and_conclusion_matter(
            checked,
            steps.drop_last(),
            outcomes.drop_last(),
            other_steps.drop_last(),
            other_outcomes.drop_last(),
        );
        assert(steps.drop_last()[n] == other_steps.drop_last()[n]);
        assert(steps[n + 1] == following_step(steps[n], outcomes[n]));
        assert(other_steps[n + 1] == following_step(other_steps[n], other_outcomes[n]));
        assert forall|k: int| 0 <= k < steps.len() implies steps[k] == other_steps[k] by {
            if k <= n {
                assert(steps.drop_last()[k] == other_steps.drop_last()[k]);
            }
        }
    }
    assert(steps =~= other_steps);
}

proof fn lemma_shorter_activation(
    checked: Result<(), ActivateError>,
    steps: Seq<ActivationStep>,
    outcomes: Seq<bool>,
)
    requires
        is_activation(checked, steps, outcomes),
        outcomes.len() > 0,
    ensures
        is_activation(checked, steps.drop_last(), outcomes.drop_last()),
{
    let s = steps.drop_last();
    let o = outcomes.drop_last();
    assert forall|k: int| 0 <= k < o.len() implies #[trigger] s[k + 1] == following_step(
        s[k],
        o[k],
    ) by {
        assert(steps[k + 1] == following_step(steps[k], outcomes[k]));
    }
}

/// An activation that can be made takes six steps in all where the backend agrees and
/// the device takes note of it. It ends the third time that something is to be done
/// where the backend does not agree, and then no call is routed and no event written.
pub proof fn law_steps_of_an_activation(steps: Seq<ActivationStep>, outcomes: Seq<bool>)
    requires
        is_activation(Ok(()), steps, outcomes),
        outcomes.len() >= 5,
    ensures
        steps[0] is Negotiate,
        !outcomes[0] ==> {
            &&& steps[1] == (ActivationStep::Conclude { negotiated: false })
            &&& steps[2] == (ActivationStep::Refuse { error: ActivateError::BadActivate })
        },
        outcomes[0] ==> {
            &&& steps[1] is QuerySharedObject
            &&& steps[2] is RouteCalls
            &&& steps[3] == (ActivationStep::Conclude { negotiated: true })
            &&& outcomes[3] ==> steps[4] is WriteEvent && steps[5] is Finish
            &&& !outcomes[3] ==> steps[4] == (ActivationStep::Refuse {
                error: ActivateError::BadActivate,
            })
        },
{
    assert(steps[0int + 1] == following_step(steps[0], outcomes[0]));
    assert(steps[1int + 1] == following_step(steps[1], outcomes[1]));
    assert(steps[2int + 1] == following_step(steps[2], outcomes[2]));
    assert(steps[3int + 1] == following_step(steps[3], outcomes[3]));
    assert(steps[4int + 1] == following_step(steps[4], outcomes[4]));
}

/// How far a step is from the beginning.
spec fn position(step: ActivationStep) -> int {
    match step {
        ActivationStep::Negotiate => 0,
        ActivationStep::QuerySharedObject => 1,
        ActivationStep::RouteCalls => 2,
        ActivationStep::Conclude { .. } => 3,
        ActivationStep::WriteEvent => 4,
        ActivationStep::Finish => 5,
        ActivationStep::Refuse { .. } => 5,
    }
}

proof fn lemma_forward(
    checked: Result<(), ActivateError>,
    steps: Seq<ActivationStep>,
    outcomes: Seq<bool>,
    j: int,
    k: int,
)
    requires
        is_activation(checked, steps, outcomes),
        0 <= j < k < steps.len(),
    ensures
        position(steps[k]) > position(steps[j]) || (position(steps[j]) == 5 && steps[k]
            == steps[j]),
    decreases k,
{
    assert(steps[k - 1 + 1] == following_step(steps[k - 1], outcomes[k - 1]));
    if j < k - 1 {
        lemma_forward(checked, steps, outcomes, j, k - 1);
    }
}

/// The activation event is written at most once, after everything else: the device
/// has taken note of the negotiation by then, and nothing is left to do.
pub proof fn law_event_comes_once_and_last(
    checked: Result<(), ActivateError>,
    steps: Seq<ActivationStep>,
    outcomes: Seq<bool>,
    k: int,
)
    requires
        is_activation(checked, steps, outcomes),
        0 <= k < steps.len(),
        steps[k] is WriteEvent,
    ensures
        k > 0 && steps[k - 1] == (ActivationStep::Conclude { negotiated: true })
            && outcomes[k - 1],
        forall|j: int| 0 <= j < k ==> !((#[trigger] steps[j]) is WriteEvent),
        forall|j: int| k < j < steps.len() ==> (#[trigger] steps[j]) is Finish,
{
    if k > 0 {
        assert(steps[k - 1 + 1] == following_step(steps[k - 1], outcomes[k - 1]));
    }
    assert forall|j: int| 0 <= j < k implies !((#[trigger] steps[j]) is WriteEvent) by {
        lemma_forward(checked, steps, outcomes, j, k);
    }
    assert forall|j: int| k < j < steps.len() implies (#[trigger] steps[j]) is Finish by {
        assert(steps[k + 1] == following_step(steps[k], outcomes[k]));
        if k + 1 < j {
            lemma_forward(checked, steps, outcomes, k + 1, j);
        }
    }
}

/// An activation is over after at most five steps. If the device is in use then, the
/// event was written.
pub proof fn law_activation_ends(
    checked: Result<(), ActivateError>,
    steps: Seq<ActivationStep>,
    outcomes: Seq<bool>,
)
    requires
        is_activation(checked, steps, outcomes),
    ensures
        outcomes.len() >= 5 ==> steps.last() is Finish || steps.last() is Refuse,
        steps.last() is Finish ==> exists|k: int|
            0 <= k < outcomes.len() && (#[trigger] steps[k]) is WriteEvent,
    decreases outcomes.len(),
{
    lemma_late_step(checked, steps, outcomes, steps.len() - 1);
    if steps.last() is Finish {
        let n = outcomes.len() - 1;
        assert(outcomes.len() > 0);
        assert(steps[n + 1] == following_step(steps[n], outcomes[n]));
        if steps[n] is Finish {
            lemma_shorter_activation(checked, steps, outcomes);
            law_activation_ends(checked, steps.drop_last(), outcomes.drop_last());
            let k = choose|k: int|
                0 <= k < outcomes.drop_last().len() && (
                #[trigger] steps.drop_last()[k]) is WriteEvent;
            assert(steps[k] is WriteEvent);
        } else {
            assert(steps[n] is WriteEvent);
        }
    }
}

/// Once an activation is over nothing more is done, however that is taken.
pub proof fn law_activation_stays_over(
    checked: Result<(), ActivateError>,
    steps: Seq<ActivationStep>,
    outcomes: Seq<bool>,
    k: int,
)
    requires
        is_activation(checked, steps, outcomes),
        0 <= k < outcomes.len(),
        steps[k] is Finish || steps[k] is Refuse,
    ensures
        steps[k + 1] == steps[k],
{
    assert(steps[k + 1] == following_step(steps[k], outcomes[k]));
}

/// What each step rests on: the one before it, and that one having gone well where it
/// has to.
pub proof fn law_each_step_has_its_ground(
    checked: Result<(), ActivateError>,
    steps: Seq<ActivationStep>,
    outcomes: Seq<bool>,
    k: int,
)
    requires
        is_activation(checked, steps, outcomes),
        0 <= k < steps.len(),
    ensures
        match steps[k] {
            ActivationStep::Negotiate => k == 0 && checked is Ok,
            ActivationStep::QuerySharedObject => k > 0 && steps[k - 1] is Negotiate && outcomes[k
                - 1],
            ActivationStep::RouteCalls => k > 0 && steps[k - 1] is QuerySharedObject,
            ActivationStep::Conclude { negotiated } => k > 0 && if negotiated {
                steps[k - 1] is RouteCalls
            } else {
                steps[k - 1] is Negotiate && !outcomes[k - 1]
            },
            ActivationStep::WriteEvent => k > 0 && outcomes[k - 1] && steps[k - 1] == (
            ActivationStep::Conclude { negotiated: true }),
            ActivationStep::Finish => k > 0 && (steps[k - 1] is WriteEvent || steps[k - 1]
                is Finish),
            ActivationStep::Refuse { error } => {
                ||| k == 0 && checked == Err::<(), ActivateError>(error)
                ||| k > 0 && steps[k - 1] == steps[k]
                ||| k > 0 && error == ActivateError::BadActivate && (
                steps[k - 1] matches ActivationStep::Conclude { negotiated } && !(negotiated
                    && outcomes[k - 1]))
            },
        },
{
    if k > 0 {
        assert(steps[k - 1 + 1] == following_step(steps[k - 1], outcomes[k - 1]));
    }
}

/// The steps and the device agree: where each outcome is what happened, the activation
/// ends well just where the device is put in use.
pub proof fn law_finished_means_in_use<F, Q, M>(
    mem: GuestMemoryMmap,
    queues: Seq<Q>,
    negotiated: Result<(F, Vec<Option<RawFd>>), HandshakeError>,
    context: M,
    checked: Result<(), ActivateError>,
    steps: Seq<ActivationStep>,
    outcomes: Seq<bool>,
)
    requires
        is_activation(checked, steps, outcomes),
        outcomes.len() >= 5,
        checked is Ok <==> crate::device::can_activate(mem, queues.len() as int),
        forall|k: int|
            0 <= k < outcomes.len() && steps[k] is Negotiate ==> #[trigger] outcomes[k]
                == negotiated is Ok,
        forall|k: int|
            0 <= k < outcomes.len() && steps[k] is Conclude ==> #[trigger] outcomes[k]
                == crate::device::activate_call(mem, queues, negotiated, context) is Activate,
    ensures
        steps.last() is Finish <==> crate::device::activate_call(
            mem,
            queues,
            negotiated,
            context,
        ) is Activate,
        steps.last() == (ActivationStep::Refuse { error: ActivateError::BadActivate })
            <==> crate::device::activate_call(
            mem,
            queues,
            negotiated,
            context,
        ) is ActivateInVain,
{
    let last = steps.len() - 1;
    match checked {
        Ok(()) => {
            law_steps_of_an_activation(steps, outcomes);
            let end: int = if !outcomes[0] {
                2
            } else if !outcomes[3] {
                4
            } else {
                5
            };
            if end < last {
                lemma_forward(checked, steps, outcomes, end, last);
            }
        },
        Err(error) => law_nothing_before_the_check(error, steps, outcomes, last),
    }
}

proof fn lemma_late_step(
    checked: Result<(), ActivateError>,
    steps: Seq<ActivationStep>,
    outcomes: Seq<bool>,
    k: int,
)
    requires
        is_activation(checked, steps, outcomes),
        0 <= k < steps.len(),
    ensures
        position(steps[k]) >= k || position(steps[k]) == 5,
    decreases k,
{
    if k > 0 {
        lemma_late_step(checked, steps, outcomes, k - 1);
        assert(steps[k - 1 + 1] == following_step(steps[k - 1], outcomes[k - 1]));
    }
}

} // verus!
