//! Turning the backend's calls into guest interrupts.
//!
//! Each queue has a socket on which the backend calls. A `CallRouter` says what the
//! thread that watches one such socket does next.

use vstd::prelude::*;

verus! {

/// How many bytes are read from the socket at a time.
pub const DRAIN_LEN: usize = 64;

/// What the watching thread does.
#[derive(Clone, Copy, Debug, PartialEq, Eq, Structural)]
pub enum RouteStep {
    /// Open an event queue.
    OpenQueue,
    /// Have the event queue watch the socket for data.
    Register,
    /// Wait for an event.
    Wait,
    /// Read up to so many bytes from the socket.
    Read { len: usize },
    /// Interrupt the guest.
    Signal,
    /// Close the event queue.
    CloseQueue,
    /// Nothing more.
    Stop,
}

/// What the thread does once a step has returned `status`: negative if it failed,
/// for a wait the number of events, for a read the number of bytes.
/// `interrupted` tells whether a failure was an interrupted system call.
pub open spec fn next_route_step(step: RouteStep, status: i64, interrupted: bool) -> RouteStep {
    match step {
        RouteStep::OpenQueue => if status < 0 {
            RouteStep::Stop
        } else {
            RouteStep::Register
        },
        RouteStep::Register => if status < 0 {
            RouteStep::CloseQueue
        } else {
            RouteStep::Wait
        },
        RouteStep::Wait => if status > 0 {
            RouteStep::Read { len: DRAIN_LEN }
        } else if status == 0 || interrupted {
            RouteStep::Wait
        } else {
            RouteStep::CloseQueue
        },
        RouteStep::Read { .. } => if status > 0 {
            RouteStep::Read { len: DRAIN_LEN }
        } else {
            RouteStep::Signal
        },
        RouteStep::Signal => RouteStep::Wait,
        RouteStep::CloseQueue => RouteStep::Stop,
        RouteStep::Stop => RouteStep::Stop,
    }
}

/// The course of one watching thread.
pub struct CallRouter {
    step: RouteStep,
}

impl CallRouter {
    /// What is to be done.
    pub closed spec fn pending(&self) -> RouteStep {
        self.step
    }

    /// A thread that has not done anything yet.
    pub fn new() -> (router: CallRouter)
        ensures
            router.pending() == RouteStep::OpenQueue,
    {
        CallRouter { step: RouteStep::OpenQueue }
    }

    /// What is to be done next.
    pub fn step(&self) -> (step: RouteStep)
        ensures
            step == self.pending(),
    {
        self.step
    }

    /// Goes on, knowing how the step went.
    pub fn advance(&mut self, status: i64, interrupted: bool)
        ensures
            final(self).pending() == next_route_step(old(self).pending(), status, interrupted),
    {
        self.step = match self.step {
            RouteStep::OpenQueue => if status < 0 {
                RouteStep::Stop
            } else {
                RouteStep::Register
            },
            RouteStep::Register => if status < 0 {
                RouteStep::CloseQueue
            } else {
                RouteStep::Wait
            },
            RouteStep::Wait => if status < 0 {
                if interrupted {
                    RouteStep::Wait
                } else {
                    RouteStep::CloseQueue
                }
            } else if status == 0 {
                RouteStep::Wait
            } else {
                RouteStep::Read { len: DRAIN_LEN }
            },
            RouteStep::Read { .. } => if status <= 0 {
                RouteStep::Signal
            } else {
                RouteStep::Read { len: DRAIN_LEN }
            },
            RouteStep::Signal => RouteStep::Wait,
            RouteStep::CloseQueue => RouteStep::Stop,
            RouteStep::Stop => RouteStep::Stop,
        };
    }
}

/// What a thread does from its start, and how each step but the last went.
pub open spec fn is_routing(steps: Seq<RouteStep>, replies: Seq<(i64, bool)>) -> bool {
    &&& steps.len() == replies.len() + 1
    &&& steps[0] == RouteStep::OpenQueue
    &&& forall|k: int|
        0 <= k < replies.len() ==> #[trigger] steps[k + 1] == next_route_step(
            steps[k],
            replies[k].0,
            replies[k].1,
        )
}

/// How often the thread was woken by the backend: waits that returned an event.
pub open spec fn wakeups(steps: Seq<RouteStep>, replies: Seq<(i64, bool)>) -> nat
    decreases replies.len(),
{
    if replies.len() == 0 {
        0
    } else {
        let before = wakeups(steps, replies.drop_last());
        if steps[replies.len() - 1] == RouteStep::Wait && replies.last().0 > 0 {
            before + 1
        } else {
            before
        }
    }
}

/// How often the thread has come to interrupt the guest.
pub open spec fn signals(steps: Seq<RouteStep>) -> nat
    decreases steps.len(),
{
    if steps.len() == 0 {
        0
    } else if steps.last() == RouteStep::Signal {
        signals(steps.drop_last()) + 1
    } else {
        signals(steps.drop_last())
    }
}

/// What is left of a thread's course without its last step.
proof fn lemma_routing_is_shorter(steps: Seq<RouteStep>, replies: Seq<(i64, bool)>)
    requires
        is_routing(steps, replies),
        replies.len() > 0,
    ensures
        is_routing(steps.drop_last(), replies.drop_last()),
        steps.last() == next_route_step(
            steps.drop_last().last(),
            replies.last().0,
            replies.last().1,
        ),
{
    let earlier = steps.drop_last();
    let earlier_replies = replies.drop_last();
    assert forall|k: int| 0 <= k < earlier_replies.len() implies #[trigger] earlier[k + 1]
        == next_route_step(earlier[k], earlier_replies[k].0, earlier_replies[k].1) by {
        assert(steps[k + 1] == earlier[k + 1]);
    }
    let n = replies.len() as int;
    assert(steps[n - 1 + 1] == next_route_step(steps[n - 1], replies[n - 1].0, replies[n - 1].1));
}

/// The wakeups depend only on the steps that have returned.
proof fn lemma_wakeups_prefix(
    a: Seq<RouteStep>,
    b: Seq<RouteStep>,
    replies: Seq<(i64, bool)>,
)
    requires
        replies.len() <= a.len(),
        replies.len() <= b.len(),
        forall|k: int| 0 <= k < replies.len() ==> a[k] == b[k],
    ensures
        wakeups(a, replies) == wakeups(b, replies),
    decreases replies.len(),
{
    if replies.len() > 0 {
        lemma_wakeups_prefix(a, b, replies.drop_last());
    }
}

/// Each time the backend wakes the thread, the guest is interrupted exactly once:
/// at every moment there have been as many interrupts as wakeups, or one fewer
/// while the socket is being drained.
pub proof fn law_one_signal_per_wakeup(steps: Seq<RouteStep>, replies: Seq<(i64, bool)>)
    requires
        is_routing(steps, replies),
    ensures
        wakeups(steps, replies) == signals(steps) + (if steps.last() is Read {
            1nat
        } else {
            0nat
        }),
    decreases replies.len(),
{
    if replies.len() == 0 {
        reveal_with_fuel(signals, 2);
    } else {
        lemma_routing_is_shorter(steps, replies);
        law_one_signal_per_wakeup(steps.drop_last(), replies.drop_last());
        lemma_wakeups_prefix(steps, steps.drop_last(), replies.drop_last());
        assert(steps[replies.len() - 1] == steps.drop_last().last());
    }
}

/// The guest is interrupted only after the socket was read until nothing was left.
pub proof fn law_signal_follows_drain(steps: Seq<RouteStep>, replies: Seq<(i64, bool)>, k: int)
    requires
        is_routing(steps, replies),
        0 <= k < steps.len(),
        steps[k] == RouteStep::Signal,
    ensures
        k >= 1,
        steps[k - 1] == (RouteStep::Read { len: DRAIN_LEN }),
        replies[k - 1].0 <= 0,
{
    assert(k > 0);
    assert(steps[k - 1 + 1] == next_route_step(steps[k - 1], replies[k - 1].0, replies[k - 1].1));
    assert(steps[k - 1] is Read);
    assert(k - 1 > 0);
    assert(steps[k - 2 + 1] == next_route_step(steps[k - 2], replies[k - 2].0, replies[k - 2].1));
}

/// What each step of a thread rests on. It opens its event queue once and registers the
/// socket if it got one. It waits after that, after a wait that brought nothing or was
/// interrupted, and after each interrupt of the guest. It reads, 64 bytes at a time,
/// once a wait brought an event, and goes on reading as long as there was something. It
/// gives up only where registering failed, or a wait failed otherwise than by being
/// interrupted.
pub proof fn law_each_step_has_its_cause(
    steps: Seq<RouteStep>,
    replies: Seq<(i64, bool)>,
    k: int,
)
    requires
        is_routing(steps, replies),
        0 <= k < steps.len(),
    ensures
        k == 0 <==> steps[k] is OpenQueue,
        k > 0 ==> ({
            let before = steps[k - 1];
            let status = replies[k - 1].0;
            let interrupted = replies[k - 1].1;
            match steps[k] {
                RouteStep::OpenQueue => false,
                RouteStep::Register => before is OpenQueue && status >= 0,
                RouteStep::Wait => {
                    ||| before is Register && status >= 0
                    ||| before is Wait && (status == 0 || (status < 0 && interrupted))
                    ||| before is Signal
                },
                RouteStep::Read { len } => len == 64 && (before is Wait || before is Read) && status
                    > 0,
                RouteStep::Signal => before is Read && status <= 0,
                RouteStep::CloseQueue => {
                    ||| before is Register && status < 0
                    ||| before is Wait && status < 0 && !interrupted
                },
                RouteStep::Stop => {
                    ||| before is OpenQueue && status < 0
                    ||| before is CloseQueue
                    ||| before is Stop
                },
            }
        }),
{
    if k > 0 {
        assert(steps[k - 1 + 1] == next_route_step(
            steps[k - 1],
            replies[k - 1].0,
            replies[k - 1].1,
        ));
    }
}

/// As long as no wait fails for good, a thread that has registered its socket never
/// stops: interrupted waits, empty waits and failed reads do not end it.
pub proof fn law_routing_goes_on(steps: Seq<RouteStep>, replies: Seq<(i64, bool)>, j: int, k: int)
    requires
        is_routing(steps, replies),
        0 <= j <= k < steps.len(),
        steps[j] is Wait,
        forall|i: int|
            j <= i < k && (#[trigger] steps[i]) is Wait ==> replies[i].0 >= 0 || replies[i].1,
    ensures
        steps[k] is Wait || steps[k] is Read || steps[k] is Signal,
    decreases k,
{
    if j < k {
        law_routing_goes_on(steps, replies, j, k - 1);
        assert(steps[k - 1 + 1] == next_route_step(
            steps[k - 1],
            replies[k - 1].0,
            replies[k - 1].1,
        ));
    }
}

/// A thread that stops has closed its event queue, unless it never got one.
pub proof fn law_queue_is_closed_before_stop(
    steps: Seq<RouteStep>,
    replies: Seq<(i64, bool)>,
    k: int,
)
    requires
        is_routing(steps, replies),
        0 <= k < steps.len(),
        steps[k] == RouteStep::Stop,
        replies.len() > 0 && replies[0].0 >= 0,
    ensures
        exists|j: int| 0 <= j < k && #[trigger] steps[j] == RouteStep::CloseQueue,
    decreases k,
{
    assert(k > 0);
    assert(steps[k - 1 + 1] == next_route_step(steps[k - 1], replies[k - 1].0, replies[k - 1].1));
    if steps[k - 1] == RouteStep::Stop {
        law_queue_is_closed_before_stop(steps, replies, k - 1);
    } else if steps[k - 1] == RouteStep::OpenQueue {
        lemma_opens_once(steps, replies, k - 1);
    } else {
        assert(steps[k - 1] == RouteStep::CloseQueue);
    }
}

/// The event queue is opened first and never again.
proof fn lemma_opens_once(steps: Seq<RouteStep>, replies: Seq<(i64, bool)>, k: int)
    requires
        is_routing(steps, replies),
        0 <= k < steps.len(),
        steps[k] == RouteStep::OpenQueue,
    ensures
        k == 0,
{
    if k > 0 {
        assert(steps[k - 1 + 1] == next_route_step(
            steps[k - 1],
            replies[k - 1].0,
            replies[k - 1].1,
        ));
    }
}

} // verus!
