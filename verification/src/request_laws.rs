//! What each request of a negotiation rests on: the request before it, the reply to
//! that, and what the plan says of the queue in question.

use vstd::prelude::*;

use crate::handshake::{HandshakeError, PlanView, Reply, Request, VringPlan};

verus! {

/// The first request about the queues from number `index` on is about the first of
/// them that is not passed over.
proof fn lemma_entered_queue(vrings: Seq<VringPlan>, index: int)
    requires
        0 <= index,
        vrings.len() <= usize::MAX,
    ensures
        match crate::handshake::first_vring_request(vrings, index) {
            Request::SetVringNum { index: at, num } => {
                &&& index <= at < vrings.len()
                &&& vrings[at as int] matches VringPlan::Configured { config, .. } && num
                    == config.queue_size
                &&& forall|j: int| index <= j < at ==> (#[trigger] vrings[j]) is NotReady
            },
            Request::Finish => forall|j: int|
                index <= j < vrings.len() ==> (#[trigger] vrings[j]) is NotReady,
            Request::Fail { error } => error matches HandshakeError::UnmappedAddress { gpa }
                && exists|at: int|
                index <= at < vrings.len() && #[trigger] vrings[at] == (VringPlan::Unmapped { gpa })
                    && forall|j: int| index <= j < at ==> (#[trigger] vrings[j]) is NotReady,
            _ => false,
        },
    decreases vrings.len() - index,
{
    if index < vrings.len() {
        match vrings[index] {
            VringPlan::NotReady => {
                lemma_entered_queue(vrings, index + 1);
                if let Request::Fail { error: HandshakeError::UnmappedAddress { gpa } } =
                    crate::handshake::first_vring_request(vrings, index) {
                    let at = choose|at: int|
                        index + 1 <= at < vrings.len() && #[trigger] vrings[at] == (
                        VringPlan::Unmapped { gpa }) && forall|j: int|
                            index + 1 <= j < at ==> (#[trigger] vrings[j]) is NotReady;
                    assert(forall|j: int| index <= j < at ==> (#[trigger] vrings[j]) is NotReady);
                }
            },
            VringPlan::Unmapped { gpa } => {
                assert(vrings[index] == (VringPlan::Unmapped { gpa }));
            },
            VringPlan::Configured { .. } => {},
        }
    }
}

/// How a request follows from the one before.
proof fn lemma_follows(plan: PlanView, requests: Seq<Request>, replies: Seq<Reply>, k: int)
    requires
        crate::handshake_laws::is_run(plan, requests, replies),
        0 <= k < requests.len(),
    ensures
        k == 0 ==> requests[k] == (Request::Connect {
            queues: plan.vrings.len() as u64,
            need_reply: true,
        }),
        k > 0 ==> {
            &&& requests[k] == crate::handshake::next_request(
                plan,
                requests[k - 1],
                replies[k - 1],
            )
            &&& crate::handshake::request_fits(plan.vrings, requests[k - 1])
        },
        crate::handshake::request_fits(plan.vrings, requests[k]),
        plan.vrings.len() <= usize::MAX,
{
    crate::handshake_laws::law_only_configured_queues_are_touched(plan, requests, replies, k);
    if k > 0 {
        assert(requests[k - 1 + 1] == crate::handshake::next_request(
            plan,
            requests[k - 1],
            replies[k - 1],
        ));
        crate::handshake_laws::law_only_configured_queues_are_touched(
            plan,
            requests,
            replies,
            k - 1,
        );
    }
}

/// Up to the memory table, each request comes directly after the one that it needs, and
/// only if that went well. The connection is made once, for all queues. The features
/// that are set are those of the guest and the protocol bit, as far as the backend has
/// them; the protocol features are the backend's own.
pub proof fn law_opening_requests_follow_each_other(
    plan: PlanView,
    requests: Seq<Request>,
    replies: Seq<Reply>,
    k: int,
)
    requires
        crate::handshake_laws::is_run(plan, requests, replies),
        0 <= k < requests.len(),
    ensures
        k == 0 <==> requests[k] is Connect,
        match requests[k] {
            Request::Connect { queues, need_reply } => queues == plan.vrings.len() && need_reply,
            Request::SetOwner => requests[k - 1] is Connect && replies[k - 1] == Reply::Done,
            Request::GetFeatures => requests[k - 1] is SetOwner && replies[k - 1] == Reply::Done,
            Request::SetFeatures { features } => requests[k - 1] is GetFeatures && (
            replies[k - 1] matches Reply::Value(offered) && features == (plan.acked_features
                | 0x4000_0000) & offered),
            Request::GetProtocolFeatures => requests[k - 1] is SetFeatures && replies[k - 1]
                == Reply::Done,
            Request::SetProtocolFeatures { features } => requests[k - 1] is GetProtocolFeatures
                && replies[k - 1] == Reply::Value(features),
            Request::SetMemTable => requests[k - 1] is SetProtocolFeatures && replies[k - 1]
                == Reply::Done && plan.table is Ok,
            _ => true,
        },
{
    lemma_follows(plan, requests, replies, k);
    if k > 0 {
        lemma_entered_queue(plan.vrings, 0);
        if let Request::SetVringEnable { index, .. } = requests[k - 1] {
            lemma_entered_queue(plan.vrings, index + 1);
        }
    }
}

/// The setup of a queue begins right after the memory table or right after another
/// queue is enabled, and every queue that is left out on the way is one to be passed
/// over. It goes by size, addresses and base, then, after the kick and call sockets,
/// to enabling the queue; size and addresses are the queue's own, and the base is 0.
pub proof fn law_queue_is_set_up_from_its_own_plan(
    plan: PlanView,
    requests: Seq<Request>,
    replies: Seq<Reply>,
    k: int,
)
    requires
        crate::handshake_laws::is_run(plan, requests, replies),
        0 <= k < requests.len(),
    ensures
        match requests[k] {
            Request::SetVringNum { index, num } => {
                &&& k > 0
                &&& index < plan.vrings.len()
                &&& plan.vrings[index as int] matches VringPlan::Configured { config, .. } && num
                    == config.queue_size
                &&& replies[k - 1] == Reply::Done
                &&& {
                    ||| requests[k - 1] is SetMemTable && forall|j: int|
                        0 <= j < index ==> (#[trigger] plan.vrings[j]) is NotReady
                    ||| requests[k - 1] matches Request::SetVringEnable { index: before, .. }
                        && before < index && forall|j: int|
                        before < j < index ==> (#[trigger] plan.vrings[j]) is NotReady
                }
            },
            Request::SetVringAddr { index, config } => {
                &&& k > 0
                &&& index < plan.vrings.len()
                &&& plan.vrings[index as int] matches VringPlan::Configured { config: own, .. }
                    && config == own
                &&& requests[k - 1] matches Request::SetVringNum { index: before, .. } && before
                    == index
                &&& replies[k - 1] == Reply::Done
            },
            Request::SetVringBase { index, base } => {
                &&& k > 0
                &&& base == 0
                &&& requests[k - 1] matches Request::SetVringAddr { index: before, .. } && before
                    == index
                &&& replies[k - 1] == Reply::Done
            },
            Request::SetVringEnable { index, enable } => {
                &&& k > 0
                &&& enable
                &&& requests[k - 1] matches Request::SetVringCall { index: before, .. } && before
                    == index
                &&& replies[k - 1] == Reply::Done
            },
            _ => true,
        },
{
    lemma_follows(plan, requests, replies, k);
    if k > 0 {
        lemma_entered_queue(plan.vrings, 0);
        if let Request::SetVringEnable { index, .. } = requests[k - 1] {
            lemma_entered_queue(plan.vrings, index + 1);
        }
    }
}

/// What the backend is given to wait on for kicks is a duplicate of the queue's own
/// event descriptor: the one that the plan has for the queue is duplicated, and the
/// duplicate that came of it is sent for the same queue.
pub proof fn law_kick_is_the_queues_own_event(
    plan: PlanView,
    requests: Seq<Request>,
    replies: Seq<Reply>,
    k: int,
)
    requires
        crate::handshake_laws::is_run(plan, requests, replies),
        0 <= k < requests.len(),
    ensures
        match requests[k] {
            Request::DupKick { index, event_fd } => {
                &&& k > 0
                &&& index < plan.vrings.len()
                &&& plan.vrings[index as int] matches VringPlan::Configured { event_fd: own, .. }
                    && event_fd == own
                &&& requests[k - 1] matches Request::SetVringBase { index: before, .. } && before
                    == index
                &&& replies[k - 1] == Reply::Done
            },
            Request::SetVringKick { index, kick_fd } => {
                &&& k > 0
                &&& index < plan.vrings.len()
                &&& kick_fd >= 0
                &&& replies[k - 1] == Reply::Status(kick_fd)
                &&& requests[k - 1] matches Request::DupKick { index: before, event_fd } && before
                    == index && (plan.vrings[index as int] matches VringPlan::Configured {
                    event_fd: own,
                    ..
                } && event_fd == own)
            },
            _ => true,
        },
    decreases k,
{
    lemma_follows(plan, requests, replies, k);
    if k > 0 {
        lemma_entered_queue(plan.vrings, 0);
        if let Request::SetVringEnable { index, .. } = requests[k - 1] {
            lemma_entered_queue(plan.vrings, index + 1);
        }
        if requests[k] is SetVringKick {
            assert(k - 1 > 0);
            law_kick_is_the_queues_own_event(plan, requests, replies, k - 1);
        }
    }
}

/// The sockets for a queue's calls are those that were opened for it, after its kick
/// was sent: the flags that are read and set are those of the local one, the remote one
/// is sent, and both are closed just where the flags could not be read or set.
pub proof fn law_call_sockets_are_the_opened_pair(
    plan: PlanView,
    requests: Seq<Request>,
    replies: Seq<Reply>,
    k: int,
)
    requires
        crate::handshake_laws::is_run(plan, requests, replies),
        0 <= k < requests.len(),
    ensures
        match requests[k] {
            Request::OpenCallPair { index } => {
                &&& k > 0
                &&& requests[k - 1] matches Request::SetVringKick { index: before, .. } && before
                    == index
                &&& replies[k - 1] == Reply::Done
            },
            Request::GetFileFlags { index, local, remote } => {
                &&& k > 0
                &&& requests[k - 1] == (Request::OpenCallPair { index })
                &&& replies[k - 1] == (Reply::Pair { status: 0, local, remote })
            },
            Request::SetFileFlags { index, local, remote, flags } => {
                &&& k > 0
                &&& requests[k - 1] == (Request::GetFileFlags { index, local, remote })
                &&& replies[k - 1] matches Reply::Status(read) && read >= 0 && flags == read
                    | plan.nonblock
            },
            Request::SetVringCall { index, local, remote } => {
                &&& k > 0
                &&& requests[k - 1] matches Request::SetFileFlags {
                    index: before,
                    local: l,
                    remote: r,
                    ..
                } && before == index && l == local && r == remote
                &&& replies[k - 1] matches Reply::Status(status) && status >= 0
            },
            Request::ClosePair { local, remote } => {
                &&& k > 0
                &&& {
                    ||| requests[k - 1] matches Request::GetFileFlags { local: l, remote: r, .. }
                        && l == local && r == remote
                    ||| requests[k - 1] matches Request::SetFileFlags { local: l, remote: r, .. }
                        && l == local && r == remote
                }
                &&& !(replies[k - 1] matches Reply::Status(status) && status >= 0)
            },
            _ => true,
        },
{
    lemma_follows(plan, requests, replies, k);
    if k > 0 {
        lemma_entered_queue(plan.vrings, 0);
        if let Request::SetVringEnable { index, .. } = requests[k - 1] {
            lemma_entered_queue(plan.vrings, index + 1);
        }
    }
}

/// The negotiation comes to its good end right after the last message that was needed:
/// every queue after the one that was enabled last, or every queue at all, is one to be
/// passed over.
pub proof fn law_finish_leaves_no_queue_out(
    plan: PlanView,
    requests: Seq<Request>,
    replies: Seq<Reply>,
    k: int,
)
    requires
        crate::handshake_laws::is_run(plan, requests, replies),
        0 <= k < requests.len(),
        requests[k] is Finish,
    ensures
        k > 0,
        requests[k - 1] is Finish || (replies[k - 1] == Reply::Done && {
            ||| requests[k - 1] is SetMemTable && forall|j: int|
                0 <= j < plan.vrings.len() ==> (#[trigger] plan.vrings[j]) is NotReady
            ||| requests[k - 1] matches Request::SetVringEnable { index, .. } && forall|j: int|
                index < j < plan.vrings.len() ==> (#[trigger] plan.vrings[j]) is NotReady
        }),
{
    lemma_follows(plan, requests, replies, k);
    lemma_entered_queue(plan.vrings, 0);
    if let Request::SetVringEnable { index, .. } = requests[k - 1] {
        lemma_entered_queue(plan.vrings, index + 1);
    }
}

/// The negotiation fails for a reason, and for the right one: the backend's, where a
/// message was refused or an answer did not come; the system's, where a descriptor
/// could not be had or changed; the memory table's own, where there is none; or the
/// address of the first queue that is left and lacks memory.
pub proof fn law_failure_has_its_reason(
    plan: PlanView,
    requests: Seq<Request>,
    replies: Seq<Reply>,
    k: int,
)
    requires
        crate::handshake_laws::is_run(plan, requests, replies),
        0 <= k < requests.len(),
        requests[k] is Fail,
    ensures
        k > 0,
        ({
            let error = requests[k]->error;
            let before = requests[k - 1];
            let reply = replies[k - 1];
            ||| before == requests[k]
            ||| error is Backend && reply != Reply::Done && (before is Connect || before is SetOwner
                || before is SetFeatures || before is SetProtocolFeatures || before is SetMemTable
                || before is SetVringNum || before is SetVringAddr || before is SetVringBase
                || before is SetVringKick || before is SetVringCall || before is SetVringEnable)
            ||| error is Backend && (before is GetFeatures || before is GetProtocolFeatures) && !(
            reply is Value)
            ||| error is System && before is DupKick && !(reply matches Reply::Status(fd) && fd
                >= 0)
            ||| error is System && before is OpenCallPair && !(reply matches Reply::Pair {
                status,
                ..
            } && status == 0)
            ||| error is System && before is ClosePair
            ||| before is SetProtocolFeatures && reply == Reply::Done && plan.table == Err::<
                Seq<crate::guest_memory::MemoryTableEntry>,
                HandshakeError,
            >(error)
            ||| reply == Reply::Done && (error matches HandshakeError::UnmappedAddress { gpa }
                && exists|at: int|
                0 <= at < plan.vrings.len() && #[trigger] plan.vrings[at] == (VringPlan::Unmapped {
                    gpa,
                }) && {
                    ||| before is SetMemTable && forall|j: int|
                        0 <= j < at ==> (#[trigger] plan.vrings[j]) is NotReady
                    ||| before matches Request::SetVringEnable { index, .. } && index < at
                        && forall|j: int|
                        index < j < at ==> (#[trigger] plan.vrings[j]) is NotReady
                })
        }),
{
    lemma_follows(plan, requests, replies, k);
    lemma_entered_queue(plan.vrings, 0);
    if let Request::SetVringEnable { index, .. } = requests[k - 1] {
        lemma_entered_queue(plan.vrings, index + 1);
    }
}

/// A request that went well is never followed by a failure, unless the plan has no
/// memory table for it or the next queue that is left lacks memory.
pub proof fn law_good_replies_lead_on(
    plan: PlanView,
    requests: Seq<Request>,
    replies: Seq<Reply>,
    k: int,
)
    requires
        crate::handshake_laws::is_run(plan, requests, replies),
        0 <= k < replies.len(),
        plan.table is Ok,
        forall|j: int| 0 <= j < plan.vrings.len() ==> !((#[trigger] plan.vrings[j]) is Unmapped),
        match requests[k] {
            Request::GetFeatures | Request::GetProtocolFeatures => replies[k] is Value,
            Request::DupKick { .. } => replies[k] matches Reply::Status(fd) && fd >= 0,
            Request::GetFileFlags { .. } => replies[k] matches Reply::Status(read) && read >= 0,
            Request::SetFileFlags { .. } => replies[k] matches Reply::Status(status) && status >= 0,
            Request::OpenCallPair { .. } => replies[k] matches Reply::Pair { status, .. } && status
                == 0,
            Request::ClosePair { .. } | Request::Fail { .. } => false,
            Request::Finish => true,
            _ => replies[k] == Reply::Done,
        },
    ensures
        !(requests[k + 1] is Fail),
        !(requests[k + 1] is ClosePair),
{
    if requests[k + 1] is Fail {
        law_failure_has_its_reason(plan, requests, replies, k + 1);
    }
    law_call_sockets_are_the_opened_pair(plan, requests, replies, k + 1);
}

/// At any time a queue's entry holds a socket just where the backend has accepted the
/// other one of the pair for that queue, and it is that socket.
pub proof fn law_entry_is_the_socket_of_its_call(
    plan: PlanView,
    requests: Seq<Request>,
    replies: Seq<Reply>,
    i: int,
    local: i32,
)
    requires
        crate::handshake_laws::is_run(plan, requests, replies),
        0 <= i < plan.vrings.len(),
    ensures
        crate::handshake_laws::sockets_of(plan, requests, replies).len() == plan.vrings.len(),
        crate::handshake_laws::sockets_of(plan, requests, replies)[i] == Some(local) <==> exists|
            k: int,
        |
            0 <= k < replies.len() && replies[k] == Reply::Done && (
            #[trigger] requests[k] matches Request::SetVringCall { index, local: kept, .. } && index
                == i && kept == local),
{
    crate::handshake_laws::law_kept_sockets_are_the_accepted_ones(
        plan,
        requests,
        replies,
        i,
        local,
    );
    crate::handshake_laws::law_there_is_an_entry_per_queue(plan, requests, replies);
    let sockets = crate::handshake_laws::sockets_of(plan, requests, replies);
    if sockets[i] == Some(local) {
        assert(crate::handshake_laws::entry_holds(sockets, i, local));
        let k = choose|k: int|
            #[trigger] crate::handshake_laws::call_accepted(requests, replies, k, i, local);
        assert(requests[k] is SetVringCall);
    }
    if exists|k: int|
        0 <= k < replies.len() && replies[k] == Reply::Done && (
        #[trigger] requests[k] matches Request::SetVringCall { index, local: kept, .. } && index
            == i && kept == local) {
        let k = choose|k: int|
            0 <= k < replies.len() && replies[k] == Reply::Done && (
            #[trigger] requests[k] matches Request::SetVringCall { index, local: kept, .. } && index
                == i && kept == local);
        assert(crate::handshake_laws::call_accepted(requests, replies, k, i, local));
        assert(crate::handshake_laws::entry_holds(sockets, i, local));
    }
}

} // verus!
