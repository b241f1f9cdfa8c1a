//! What holds of every negotiation as a whole.

use vstd::prelude::*;

use crate::device::VirtioShmRegion;
use crate::guest_memory::{DeviceQueue, GuestRegion};
use crate::handshake::{HandshakeError, PlanView, Reply, Request, VringConfig, VringPlan};

verus! {

/// What the backend sees of a request.
pub enum Message {
    SetOwner,
    GetFeatures,
    SetFeatures { features: u64 },
    GetProtocolFeatures,
    SetProtocolFeatures { features: u64 },
    SetMemTable,
    SetVringNum { index: usize, num: u16 },
    SetVringAddr { index: usize, config: VringConfig },
    SetVringBase { index: usize, base: u16 },
    SetVringKick { index: usize },
    SetVringCall { index: usize },
    SetVringEnable { index: usize, enable: bool },
}

/// The message that a request sends, if it sends one.
pub open spec fn message_of(request: Request) -> Seq<Message> {
    match request {
        Request::SetOwner => seq![Message::SetOwner],
        Request::GetFeatures => seq![Message::GetFeatures],
        Request::SetFeatures { features } => seq![Message::SetFeatures { features }],
        Request::GetProtocolFeatures => seq![Message::GetProtocolFeatures],
        Request::SetProtocolFeatures { features } => seq![
            Message::SetProtocolFeatures { features },
        ],
        Request::SetMemTable => seq![Message::SetMemTable],
        Request::SetVringNum { index, num } => seq![Message::SetVringNum { index, num }],
        Request::SetVringAddr { index, config } => seq![Message::SetVringAddr { index, config }],
        Request::SetVringBase { index, base } => seq![Message::SetVringBase { index, base }],
        Request::SetVringKick { index, .. } => seq![Message::SetVringKick { index }],
        Request::SetVringCall { index, .. } => seq![Message::SetVringCall { index }],
        Request::SetVringEnable { index, enable } => seq![
            Message::SetVringEnable { index, enable },
        ],
        _ => seq![],
    }
}

/// The messages that a series of requests sends.
pub open spec fn messages_of(requests: Seq<Request>) -> Seq<Message>
    decreases requests.len(),
{
    if requests.len() == 0 {
        seq![]
    } else {
        messages_of(requests.drop_last()) + message_of(requests.last())
    }
}

/// The six messages that set up one queue.
pub open spec fn setup_messages(index: int, config: VringConfig) -> Seq<Message> {
    let index = index as usize;
    seq![
        Message::SetVringNum { index, num: config.queue_size },
        Message::SetVringAddr { index, config },
        Message::SetVringBase { index, base: 0 },
        Message::SetVringKick { index },
        Message::SetVringCall { index },
        Message::SetVringEnable { index, enable: true },
    ]
}

/// The messages that set up the queues from number `index` on, up to the first one
/// that cannot be set up.
pub open spec fn vring_messages(vrings: Seq<VringPlan>, index: int) -> Seq<Message>
    decreases vrings.len() - index,
{
    if index < 0 || index >= vrings.len() {
        seq![]
    } else {
        match vrings[index] {
            VringPlan::NotReady => vring_messages(vrings, index + 1),
            VringPlan::Unmapped { .. } => seq![],
            VringPlan::Configured { config, .. } => setup_messages(index, config) + vring_messages(
                vrings,
                index + 1,
            ),
        }
    }
}

/// All messages of a negotiation in which nothing fails.
pub open spec fn script(
    plan: PlanView,
    backend_features: u64,
    protocol_features: u64,
) -> Seq<Message> {
    seq![
        Message::SetOwner,
        Message::GetFeatures,
        Message::SetFeatures {
            features: crate::handshake::negotiated(plan.acked_features, backend_features),
        },
        Message::GetProtocolFeatures,
        Message::SetProtocolFeatures { features: protocol_features },
        Message::SetMemTable,
    ] + vring_messages(plan.vrings, 0)
}

/// A negotiation as it may go: each request follows from the one before and the
/// reply to it.
pub open spec fn is_run(plan: PlanView, requests: Seq<Request>, replies: Seq<Reply>) -> bool {
    &&& plan.vrings.len() <= usize::MAX
    &&& requests.len() == replies.len() + 1
    &&& requests[0] == (Request::Connect {
        queues: plan.vrings.len() as u64,
        need_reply: true,
    })
    &&& forall|k: int|
        0 <= k < replies.len() ==> #[trigger] requests[k + 1] == crate::handshake::next_request(
            plan,
            requests[k],
            replies[k],
        )
}

/// The backend answers with these features whenever it answers at all.
pub open spec fn answers_with(
    requests: Seq<Request>,
    replies: Seq<Reply>,
    backend_features: u64,
    protocol_features: u64,
) -> bool {
    forall|k: int|
        0 <= k < replies.len() ==> answer_is(
            requests[k],
            #[trigger] replies[k],
            backend_features,
            protocol_features,
        )
}

/// One reply agrees with the backend's features.
pub open spec fn answer_is(
    request: Request,
    reply: Reply,
    backend_features: u64,
    protocol_features: u64,
) -> bool {
    reply matches Reply::Value(value) ==> {
        &&& request is GetFeatures ==> value == backend_features
        &&& request is GetProtocolFeatures ==> value == protocol_features
    }
}

/// The negotiation has given up.
pub open spec fn is_failing(request: Request) -> bool {
    request is Fail || request is ClosePair
}

/// There is nothing left to do.
pub open spec fn is_over(request: Request) -> bool {
    request is Fail || request is Finish
}

/// The messages that are still to come after a request, if nothing fails.
spec fn ahead(
    plan: PlanView,
    request: Request,
    backend_features: u64,
    protocol_features: u64,
) -> Seq<Message> {
    let whole = script(plan, backend_features, protocol_features);
    match request {
        Request::Connect { .. } => whole,
        Request::SetOwner => whole.skip(1),
        Request::GetFeatures => whole.skip(2),
        Request::SetFeatures { .. } => whole.skip(3),
        Request::GetProtocolFeatures => whole.skip(4),
        Request::SetProtocolFeatures { .. } => whole.skip(5),
        Request::SetMemTable => vring_messages(plan.vrings, 0),
        Request::SetVringNum { index, .. } => vring_ahead(plan.vrings, index as int, 1),
        Request::SetVringAddr { index, .. } => vring_ahead(plan.vrings, index as int, 2),
        Request::SetVringBase { index, .. } => vring_ahead(plan.vrings, index as int, 3),
        Request::DupKick { index, .. } => vring_ahead(plan.vrings, index as int, 3),
        Request::SetVringKick { index, .. } => vring_ahead(plan.vrings, index as int, 4),
        Request::OpenCallPair { index } => vring_ahead(plan.vrings, index as int, 4),
        Request::GetFileFlags { index, .. } => vring_ahead(plan.vrings, index as int, 4),
        Request::SetFileFlags { index, .. } => vring_ahead(plan.vrings, index as int, 4),
        Request::SetVringCall { index, .. } => vring_ahead(plan.vrings, index as int, 5),
        Request::SetVringEnable { index, .. } => vring_messages(plan.vrings, index + 1),
        _ => seq![],
    }
}

/// The messages still to come when the first `done` of a queue's six are sent.
spec fn vring_ahead(vrings: Seq<VringPlan>, index: int, done: int) -> Seq<Message> {
    setup_messages(index, vrings[index]->config).skip(done) + vring_messages(vrings, index + 1)
}

/// The first request about the queues from number `index` on is about the first of
/// them that is not passed over.
proof fn lemma_first_vring_request(vrings: Seq<VringPlan>, index: int)
    requires
        0 <= index,
        vrings.len() <= usize::MAX,
    ensures
        ({
            let first = crate::handshake::first_vring_request(vrings, index);
            &&& crate::handshake::request_fits(vrings, first)
            &&& first is Finish ==> vring_messages(vrings, index) == Seq::<Message>::empty()
            &&& first is Finish || first is Fail || first is SetVringNum
            &&& first matches Request::SetVringNum { index: at, num } ==> {
                &&& index <= at
                &&& num == (vrings[at as int]->config).queue_size
                &&& vring_messages(vrings, index) == vring_messages(vrings, at as int)
            }
        }),
    decreases vrings.len() - index,
{
    if index < vrings.len() && vrings[index] is NotReady {
        lemma_first_vring_request(vrings, index + 1);
    }
}

/// A step leads to a request that fits, and from a failure only to a failure.
proof fn lemma_step_fits(plan: PlanView, request: Request, reply: Reply)
    requires
        plan.vrings.len() <= usize::MAX,
        crate::handshake::request_fits(plan.vrings, request),
    ensures
        ({
            let next = crate::handshake::next_request(plan, request, reply);
            &&& crate::handshake::request_fits(plan.vrings, next)
            &&& is_failing(request) ==> is_failing(next)
        }),
{
    if request is SetMemTable {
        lemma_first_vring_request(plan.vrings, 0);
    }
    if let Request::SetVringEnable { index, .. } = request {
        lemma_first_vring_request(plan.vrings, index + 1);
    }
}

/// The messages for the queues from number `index` on start with that of the first
/// request about them.
proof fn lemma_first_vring_message(
    plan: PlanView,
    index: int,
    backend_features: u64,
    protocol_features: u64,
)
    requires
        0 <= index,
        plan.vrings.len() <= usize::MAX,
    ensures
        ({
            let first = crate::handshake::first_vring_request(plan.vrings, index);
            !is_failing(first) ==> vring_messages(plan.vrings, index) == message_of(first) + ahead(
                plan,
                first,
                backend_features,
                protocol_features,
            )
        }),
{
    lemma_first_vring_request(plan.vrings, index);
    let first = crate::handshake::first_vring_request(plan.vrings, index);
    match first {
        Request::SetVringNum { index: at, .. } => {
            let setup = setup_messages(at as int, plan.vrings[at as int]->config);
            let rest = vring_messages(plan.vrings, at + 1);
            assert(setup + rest =~= message_of(first) + (setup.skip(1) + rest));
        },
        _ => {
            assert(message_of(first) + ahead(plan, first, backend_features, protocol_features)
                =~= Seq::<Message>::empty());
        },
    }
}

/// Within the setup of one queue, a step sends the next of the six messages, or none.
proof fn lemma_vring_step(
    plan: PlanView,
    request: Request,
    reply: Reply,
    backend_features: u64,
    protocol_features: u64,
)
    requires
        crate::handshake::queue_of(request) is Some,
        !(request is SetVringEnable),
        crate::handshake::request_fits(plan.vrings, request),
    ensures
        ({
            let next = crate::handshake::next_request(plan, request, reply);
            !is_failing(next) ==> ahead(plan, request, backend_features, protocol_features)
                == message_of(next) + ahead(plan, next, backend_features, protocol_features)
        }),
{
    let next = crate::handshake::next_request(plan, request, reply);
    let index = crate::handshake::queue_of(request)->0;
    let setup = setup_messages(index as int, plan.vrings[index as int]->config);
    let rest = vring_messages(plan.vrings, index + 1);
    if !is_failing(next) {
        match next {
            Request::SetVringAddr { .. } => {
                assert(setup.skip(1) + rest =~= message_of(next) + (setup.skip(2) + rest));
            },
            Request::SetVringBase { .. } => {
                assert(setup.skip(2) + rest =~= message_of(next) + (setup.skip(3) + rest));
            },
            Request::SetVringKick { .. } => {
                assert(setup.skip(3) + rest =~= message_of(next) + (setup.skip(4) + rest));
            },
            Request::SetVringCall { .. } => {
                assert(setup.skip(4) + rest =~= message_of(next) + (setup.skip(5) + rest));
            },
            Request::SetVringEnable { .. } => {
                assert(setup.skip(5) + rest =~= message_of(next) + rest);
            },
            _ => {
                let after = ahead(plan, next, backend_features, protocol_features);
                assert(message_of(next) + after =~= after);
            },
        }
    }
}

/// One step sends the next message of the script, or none of it.
proof fn lemma_step(
    plan: PlanView,
    request: Request,
    reply: Reply,
    backend_features: u64,
    protocol_features: u64,
)
    requires
        plan.vrings.len() <= usize::MAX,
        crate::handshake::request_fits(plan.vrings, request),
        answer_is(request, reply, backend_features, protocol_features),
    ensures
        ({
            let next = crate::handshake::next_request(plan, request, reply);
            !is_failing(next) ==> ahead(plan, request, backend_features, protocol_features)
                == message_of(next) + ahead(plan, next, backend_features, protocol_features)
        }),
{
    let next = crate::handshake::next_request(plan, request, reply);
    match request {
        Request::SetMemTable => {
            lemma_first_vring_message(plan, 0, backend_features, protocol_features);
        },
        Request::SetVringEnable { index, .. } => {
            lemma_first_vring_message(plan, index + 1, backend_features, protocol_features);
        },
        _ => {
            if crate::handshake::queue_of(request) is Some {
                lemma_vring_step(plan, request, reply, backend_features, protocol_features);
            } else if !is_failing(next) {
                assert(ahead(plan, request, backend_features, protocol_features) =~= message_of(
                    next,
                ) + ahead(plan, next, backend_features, protocol_features));
            }
        },
    }
}

/// What is left of a negotiation without its last step.
proof fn lemma_run_is_shorter(
    plan: PlanView,
    requests: Seq<Request>,
    replies: Seq<Reply>,
)
    requires
        is_run(plan, requests, replies),
        replies.len() > 0,
    ensures
        is_run(plan, requests.drop_last(), replies.drop_last()),
        requests.last() == crate::handshake::next_request(
            plan,
            requests.drop_last().last(),
            replies.last(),
        ),
{
    let earlier = requests.drop_last();
    let earlier_replies = replies.drop_last();
    assert forall|k: int| 0 <= k < earlier_replies.len() implies #[trigger] earlier[k + 1]
        == crate::handshake::next_request(plan, earlier[k], earlier_replies[k]) by {
        assert(requests[k + 1] == earlier[k + 1]);
    }
    let n = replies.len() as int;
    assert(requests[n - 1 + 1] == crate::handshake::next_request(
        plan,
        requests[n - 1],
        replies[n - 1],
    ));
}

/// In every negotiation, however it goes, the backend is sent the messages of the
/// script, in order and without gaps, up to some point; one that comes to a good
/// end has sent all of them.
pub proof fn law_messages_follow_the_script(
    plan: PlanView,
    requests: Seq<Request>,
    replies: Seq<Reply>,
    backend_features: u64,
    protocol_features: u64,
)
    requires
        is_run(plan, requests, replies),
        answers_with(requests, replies, backend_features, protocol_features),
    ensures
        messages_of(requests).is_prefix_of(script(plan, backend_features, protocol_features)),
        requests.last() is Finish ==> messages_of(requests) == script(
            plan,
            backend_features,
            protocol_features,
        ),
{
    lemma_run(plan, requests, replies, backend_features, protocol_features);
}

proof fn lemma_run(
    plan: PlanView,
    requests: Seq<Request>,
    replies: Seq<Reply>,
    backend_features: u64,
    protocol_features: u64,
)
    requires
        is_run(plan, requests, replies),
        answers_with(requests, replies, backend_features, protocol_features),
    ensures
        crate::handshake::request_fits(plan.vrings, requests.last()),
        messages_of(requests).is_prefix_of(script(plan, backend_features, protocol_features)),
        !is_failing(requests.last()) ==> messages_of(requests) + ahead(
            plan,
            requests.last(),
            backend_features,
            protocol_features,
        ) == script(plan, backend_features, protocol_features),
        requests.last() is Finish ==> messages_of(requests) == script(
            plan,
            backend_features,
            protocol_features,
        ),
    decreases replies.len(),
{
    let whole = script(plan, backend_features, protocol_features);
    let n = replies.len() as int;
    if n == 0 {
        reveal_with_fuel(messages_of, 2);
        assert(messages_of(requests) =~= Seq::empty());
        assert(requests.last() == requests[0]);
    } else {
        lemma_run_is_shorter(plan, requests, replies);
        let earlier = requests.drop_last();
        let earlier_replies = replies.drop_last();
        assert forall|k: int| 0 <= k < earlier_replies.len() implies answer_is(
            earlier[k],
            #[trigger] earlier_replies[k],
            backend_features,
            protocol_features,
        ) by {
            assert(replies[k] == earlier_replies[k]);
        }
        lemma_run(plan, earlier, earlier_replies, backend_features, protocol_features);
        assert(answer_is(requests[n - 1], replies[n - 1], backend_features, protocol_features));
        let request = earlier.last();
        let next = requests.last();
        lemma_step_fits(plan, request, replies[n - 1]);
        lemma_step(plan, request, replies[n - 1], backend_features, protocol_features);
        let after = ahead(plan, next, backend_features, protocol_features);
        if is_failing(next) {
            assert(messages_of(requests) =~= messages_of(earlier));
        } else {
            assert(messages_of(requests) + after =~= messages_of(earlier) + (message_of(next)
                + after));
            assert(messages_of(requests).is_prefix_of(whole));
            if next is Finish {
                assert(messages_of(requests) + after =~= messages_of(requests));
            }
        }
    }
}

/// The sockets kept in the course of a negotiation, by queue.
pub open spec fn sockets_of(
    plan: PlanView,
    requests: Seq<Request>,
    replies: Seq<Reply>,
) -> Seq<Option<i32>>
    decreases replies.len(),
{
    if replies.len() == 0 {
        crate::handshake::no_sockets(plan.vrings.len())
    } else {
        crate::handshake::kept_sockets(
            sockets_of(plan, requests, replies.drop_last()),
            requests[replies.len() - 1],
            replies.last(),
        )
    }
}

/// The queue's entry holds the socket `local`.
pub open spec fn entry_holds(sockets: Seq<Option<i32>>, queue: int, local: i32) -> bool {
    0 <= queue < sockets.len() && sockets[queue] == Some(local)
}

/// At step `k` the backend accepted a socket for the queue, and `local` is the other
/// one of the pair.
pub open spec fn call_accepted(
    requests: Seq<Request>,
    replies: Seq<Reply>,
    k: int,
    queue: int,
    local: i32,
) -> bool {
    &&& 0 <= k < replies.len()
    &&& replies[k] == Reply::Done
    &&& requests[k] matches Request::SetVringCall { index, local: kept, .. } && index == queue
        && kept == local
}

/// Every request that comes up about a queue is about one that is to be configured.
pub proof fn law_only_configured_queues_are_touched(
    plan: PlanView,
    requests: Seq<Request>,
    replies: Seq<Reply>,
    k: int,
)
    requires
        is_run(plan, requests, replies),
        0 <= k < requests.len(),
    ensures
        crate::handshake::request_fits(plan.vrings, requests[k]),
    decreases replies.len(),
{
    if replies.len() > 0 {
        lemma_run_is_shorter(plan, requests, replies);
        let earlier = requests.drop_last();
        if k < earlier.len() {
            law_only_configured_queues_are_touched(plan, earlier, replies.drop_last(), k);
            assert(earlier[k] == requests[k]);
        } else {
            law_only_configured_queues_are_touched(plan, earlier, replies.drop_last(), k - 1);
            lemma_step_fits(plan, earlier.last(), replies.last());
        }
    }
}

/// How many more requests there can be at most, counting this one.
pub open spec fn requests_left(plan: PlanView, request: Request) -> int {
    let queues = plan.vrings.len() as int;
    match request {
        Request::Connect { .. } => queues * 10 + 9,
        Request::SetOwner => queues * 10 + 8,
        Request::GetFeatures => queues * 10 + 7,
        Request::SetFeatures { .. } => queues * 10 + 6,
        Request::GetProtocolFeatures => queues * 10 + 5,
        Request::SetProtocolFeatures { .. } => queues * 10 + 4,
        Request::SetMemTable => queues * 10 + 3,
        Request::SetVringNum { index, .. } => (queues - index) * 10 + 2,
        Request::SetVringAddr { index, .. } => (queues - index) * 10 + 1,
        Request::SetVringBase { index, .. } => (queues - index) * 10,
        Request::DupKick { index, .. } => (queues - index) * 10 - 1,
        Request::SetVringKick { index, .. } => (queues - index) * 10 - 2,
        Request::OpenCallPair { index } => (queues - index) * 10 - 3,
        Request::GetFileFlags { index, .. } => (queues - index) * 10 - 4,
        Request::SetFileFlags { index, .. } => (queues - index) * 10 - 5,
        Request::SetVringCall { index, .. } => (queues - index) * 10 - 6,
        Request::SetVringEnable { index, .. } => (queues - index) * 10 - 7,
        Request::ClosePair { .. } => 1,
        Request::Finish => 0,
        Request::Fail { .. } => 0,
    }
}

/// Whatever the replies, a negotiation is over after at most nine requests and ten
/// more for each queue.
pub proof fn law_negotiation_ends(plan: PlanView, requests: Seq<Request>, replies: Seq<Reply>)
    requires
        is_run(plan, requests, replies),
    ensures
        replies.len() >= plan.vrings.len() * 10 + 9 ==> is_over(requests.last()),
{
    lemma_requests_left(plan, requests, replies);
}

proof fn lemma_requests_left(plan: PlanView, requests: Seq<Request>, replies: Seq<Reply>)
    requires
        is_run(plan, requests, replies),
    ensures
        requests_left(plan, requests.last()) >= 0,
        is_over(requests.last()) || requests_left(plan, requests.last()) >= 1,
        is_over(requests.last()) || replies.len() + requests_left(plan, requests.last())
            <= plan.vrings.len() * 10 + 9,
    decreases replies.len(),
{
    if replies.len() > 0 {
        lemma_run_is_shorter(plan, requests, replies);
        let earlier = requests.drop_last();
        lemma_requests_left(plan, earlier, replies.drop_last());
        law_only_configured_queues_are_touched(plan, requests, replies, requests.len() - 1);
        law_only_configured_queues_are_touched(plan, requests, replies, requests.len() - 2);
        let request = earlier.last();
        assert(requests[requests.len() - 2] == request);
        if request is SetMemTable {
            lemma_first_vring_request(plan.vrings, 0);
        }
        if let Request::SetVringEnable { index, .. } = request {
            lemma_first_vring_request(plan.vrings, index + 1);
        }
    }
}

/// Later requests have fewer left after them.
proof fn lemma_requests_left_fall(
    plan: PlanView,
    requests: Seq<Request>,
    replies: Seq<Reply>,
    j: int,
    k: int,
)
    requires
        is_run(plan, requests, replies),
        0 <= j < k < requests.len(),
    ensures
        is_over(requests[k]) || requests_left(plan, requests[k]) < requests_left(plan, requests[j]),
    decreases k,
{
    if j < k - 1 {
        lemma_requests_left_fall(plan, requests, replies, j, k - 1);
    }
    law_only_configured_queues_are_touched(plan, requests, replies, k - 1);
    law_only_configured_queues_are_touched(plan, requests, replies, k);
    assert(requests[k - 1 + 1] == crate::handshake::next_request(
        plan,
        requests[k - 1],
        replies[k - 1],
    ));
    let request = requests[k - 1];
    if request is SetMemTable {
        lemma_first_vring_request(plan.vrings, 0);
    }
    if let Request::SetVringEnable { index, .. } = request {
        lemma_first_vring_request(plan.vrings, index + 1);
    }
}

/// A socket is given to the backend's side of a queue only after the end kept here
/// was made nonblocking: its flags were read, the nonblocking flag was added to
/// what was read, and the system took the result.
pub proof fn law_call_socket_is_nonblocking(
    plan: PlanView,
    requests: Seq<Request>,
    replies: Seq<Reply>,
    k: int,
)
    requires
        is_run(plan, requests, replies),
        0 <= k < requests.len(),
        requests[k] is SetVringCall,
    ensures
        k >= 2,
        requests[k - 1] matches Request::SetFileFlags { index, local, remote, flags } && {
            &&& requests[k] == (Request::SetVringCall { index, local, remote })
            &&& requests[k - 2] == (Request::GetFileFlags { index, local, remote })
            &&& replies[k - 1] matches Reply::Status(status) && status >= 0
            &&& replies[k - 2] matches Reply::Status(read) && read >= 0 && flags == read
                | plan.nonblock
        },
{
    assert(k > 0);
    assert(requests[k - 1 + 1] == crate::handshake::next_request(
        plan,
        requests[k - 1],
        replies[k - 1],
    ));
    lemma_queues_start_with_their_size(plan, requests, replies, k - 1);
    assert(requests[k - 1] is SetFileFlags);
    assert(k - 1 > 0);
    assert(requests[k - 2 + 1] == crate::handshake::next_request(
        plan,
        requests[k - 2],
        replies[k - 2],
    ));
    lemma_queues_start_with_their_size(plan, requests, replies, k - 2);
}

proof fn lemma_queues_start_with_their_size(
    plan: PlanView,
    requests: Seq<Request>,
    replies: Seq<Reply>,
    k: int,
)
    requires
        is_run(plan, requests, replies),
        0 <= k < replies.len(),
    ensures
        requests[k] is SetMemTable || requests[k] is SetVringEnable ==> is_over(requests[k + 1])
            || requests[k + 1] is SetVringNum,
{
    assert(requests[k + 1] == crate::handshake::next_request(plan, requests[k], replies[k]));
    lemma_first_vring_request(plan.vrings, 0);
    if let Request::SetVringEnable { index, .. } = requests[k] {
        lemma_first_vring_request(plan.vrings, index + 1);
    }
}

/// When the kept end cannot be made nonblocking, both sockets of the pair are closed
/// and the negotiation fails.
pub proof fn law_unusable_pair_is_closed(
    plan: PlanView,
    request: Request,
    reply: Reply,
    after_close: Reply,
)
    requires
        request is GetFileFlags || request is SetFileFlags,
        reply matches Reply::Status(status) ==> status < 0,
    ensures
        ({
            let (local, remote) = match request {
                Request::GetFileFlags { local, remote, .. } => (local, remote),
                Request::SetFileFlags { local, remote, .. } => (local, remote),
                _ => (0, 0),
            };
            let next = crate::handshake::next_request(plan, request, reply);
            &&& next == (Request::ClosePair { local, remote })
            &&& crate::handshake::next_request(plan, next, after_close) == (Request::Fail {
                error: HandshakeError::System,
            })
        }),
{
}

/// None of the queues below `end` has a part that lies outside guest memory.
pub open spec fn all_mapped(vrings: Seq<VringPlan>, end: int) -> bool {
    forall|j: int| 0 <= j < end && j < vrings.len() ==> !((#[trigger] vrings[j]) is Unmapped)
}

/// What must be in order for a request to come up.
spec fn reached(plan: PlanView, request: Request) -> bool {
    match crate::handshake::queue_of(request) {
        Some(index) => plan.table is Ok && all_mapped(plan.vrings, index as int),
        None => {
            &&& request is SetMemTable ==> plan.table is Ok
            &&& request is Finish ==> plan.table is Ok && all_mapped(
                plan.vrings,
                plan.vrings.len() as int,
            )
        },
    }
}

proof fn lemma_first_vring_reached(plan: PlanView, index: int)
    requires
        0 <= index,
        plan.vrings.len() <= usize::MAX,
        plan.table is Ok,
        all_mapped(plan.vrings, index),
    ensures
        reached(plan, crate::handshake::first_vring_request(plan.vrings, index)),
    decreases plan.vrings.len() - index,
{
    if index < plan.vrings.len() && plan.vrings[index] is NotReady {
        lemma_first_vring_reached(plan, index + 1);
    }
}

proof fn lemma_reached(plan: PlanView, requests: Seq<Request>, replies: Seq<Reply>)
    requires
        is_run(plan, requests, replies),
    ensures
        reached(plan, requests.last()),
    decreases replies.len(),
{
    if replies.len() > 0 {
        lemma_run_is_shorter(plan, requests, replies);
        let earlier = requests.drop_last();
        lemma_reached(plan, earlier, replies.drop_last());
        law_only_configured_queues_are_touched(
            plan,
            earlier,
            replies.drop_last(),
            earlier.len() - 1,
        );
        if earlier.last() is SetMemTable {
            lemma_first_vring_reached(plan, 0);
        }
        if let Request::SetVringEnable { index, .. } = earlier.last() {
            assert(all_mapped(plan.vrings, index + 1));
            lemma_first_vring_reached(plan, index + 1);
        }
    }
}

/// A negotiation comes to a good end only where there is memory to share and every
/// part of every queue that is ready lies in guest memory.
pub proof fn law_success_needs_usable_memory(
    plan: PlanView,
    requests: Seq<Request>,
    replies: Seq<Reply>,
)
    requires
        is_run(plan, requests, replies),
        requests.last() is Finish,
    ensures
        plan.table is Ok,
        forall|j: int| 0 <= j < plan.vrings.len() ==> !((#[trigger] plan.vrings[j]) is Unmapped),
{
    lemma_reached(plan, requests, replies);
}

/// The sockets kept depend only on the requests that were replied to.
proof fn lemma_sockets_prefix(
    plan: PlanView,
    a: Seq<Request>,
    b: Seq<Request>,
    replies: Seq<Reply>,
)
    requires
        replies.len() <= a.len(),
        replies.len() <= b.len(),
        forall|k: int| 0 <= k < replies.len() ==> a[k] == b[k],
    ensures
        sockets_of(plan, a, replies) == sockets_of(plan, b, replies),
    decreases replies.len(),
{
    if replies.len() > 0 {
        lemma_sockets_prefix(plan, a, b, replies.drop_last());
    }
}

/// Every queue below `end` that is to be configured has a socket.
spec fn filled(plan: PlanView, sockets: Seq<Option<i32>>, end: int) -> bool {
    forall|j: int|
        0 <= j < end && #[trigger] crate::handshake::is_configured(plan.vrings, j)
            ==> sockets[j] is Some
}

/// The queues whose sockets are in place when a request comes up.
spec fn filled_for(plan: PlanView, sockets: Seq<Option<i32>>, request: Request) -> bool {
    match crate::handshake::queue_of(request) {
        Some(index) => filled(
            plan,
            sockets,
            if request is SetVringEnable {
                index + 1
            } else {
                index as int
            },
        ),
        None => request is Finish ==> filled(plan, sockets, plan.vrings.len() as int),
    }
}

proof fn lemma_first_vring_filled(plan: PlanView, sockets: Seq<Option<i32>>, index: int)
    requires
        0 <= index,
        plan.vrings.len() <= usize::MAX,
        filled(plan, sockets, index),
    ensures
        filled_for(
            plan,
            sockets,
            crate::handshake::first_vring_request(plan.vrings, index),
        ),
    decreases plan.vrings.len() - index,
{
    if index < plan.vrings.len() && plan.vrings[index] is NotReady {
        lemma_first_vring_filled(plan, sockets, index + 1);
    }
}

/// There is an entry for each queue; a filled one holds the socket of an accepted
/// call; and no queue is reached before those below it have theirs.
proof fn lemma_sockets(plan: PlanView, requests: Seq<Request>, replies: Seq<Reply>)
    requires
        is_run(plan, requests, replies),
    ensures
        sockets_of(plan, requests, replies).len() == plan.vrings.len(),
        filled_for(plan, sockets_of(plan, requests, replies), requests.last()),
        forall|i: int, local: i32|
            #[trigger] entry_holds(sockets_of(plan, requests, replies), i, local)
                ==> crate::handshake::is_configured(plan.vrings, i) && exists|k: int|
                #[trigger] call_accepted(requests, replies, k, i, local),
    decreases replies.len(),
{
    if replies.len() > 0 {
        lemma_run_is_shorter(plan, requests, replies);
        let earlier = requests.drop_last();
        let earlier_replies = replies.drop_last();
        lemma_sockets(plan, earlier, earlier_replies);
        lemma_sockets_prefix(plan, requests, earlier, earlier_replies);
        law_only_configured_queues_are_touched(plan, earlier, earlier_replies, earlier.len() - 1);
        let n = replies.len() - 1;
        let request = earlier.last();
        assert(requests[n] == request);
        let before = sockets_of(plan, earlier, earlier_replies);
        let after = sockets_of(plan, requests, replies);
        assert(after == crate::handshake::kept_sockets(before, request, replies.last()));
        assert forall|i: int, local: i32| #[trigger]
            entry_holds(after, i, local) implies crate::handshake::is_configured(plan.vrings, i)
            && exists|k: int| #[trigger] call_accepted(requests, replies, k, i, local) by {
            if entry_holds(before, i, local) {
                let k = choose|k: int| call_accepted(earlier, earlier_replies, k, i, local);
                assert(call_accepted(requests, replies, k, i, local));
            } else {
                assert(call_accepted(requests, replies, n, i, local));
            }
        }
        if request is SetMemTable {
            lemma_first_vring_filled(plan, after, 0);
        }
        if let Request::SetVringEnable { index, .. } = request {
            lemma_first_vring_filled(plan, after, index + 1);
        }
    }
}

/// At any time there is one entry for each queue.
pub proof fn law_there_is_an_entry_per_queue(
    plan: PlanView,
    requests: Seq<Request>,
    replies: Seq<Reply>,
)
    requires
        is_run(plan, requests, replies),
    ensures
        sockets_of(plan, requests, replies).len() == plan.vrings.len(),
{
    lemma_sockets(plan, requests, replies);
}

/// A call that was accepted is still on record at any later time.
proof fn lemma_accepted_stays(
    plan: PlanView,
    requests: Seq<Request>,
    replies: Seq<Reply>,
    k: int,
    queue: int,
    local: i32,
)
    requires
        is_run(plan, requests, replies),
        call_accepted(requests, replies, k, queue, local),
    ensures
        entry_holds(sockets_of(plan, requests, replies), queue, local),
    decreases replies.len(),
{
    let n = replies.len() - 1;
    lemma_run_is_shorter(plan, requests, replies);
    let earlier = requests.drop_last();
    let earlier_replies = replies.drop_last();
    lemma_sockets(plan, earlier, earlier_replies);
    lemma_sockets_prefix(plan, requests, earlier, earlier_replies);
    law_only_configured_queues_are_touched(plan, requests, replies, k);
    if k < n {
        assert(call_accepted(earlier, earlier_replies, k, queue, local));
        lemma_accepted_stays(plan, earlier, earlier_replies, k, queue, local);
        lemma_requests_left_fall(plan, requests, replies, k, n);
        law_only_configured_queues_are_touched(plan, requests, replies, n);
    }
}

/// At the end of a negotiation that went well there is one entry for each queue: for
/// a queue that was ready the socket that was kept when the backend accepted the
/// other one, and for a queue that was passed over an entry without a socket.
pub proof fn law_one_entry_per_queue(
    plan: PlanView,
    requests: Seq<Request>,
    replies: Seq<Reply>,
)
    requires
        is_run(plan, requests, replies),
        requests.last() is Finish,
    ensures
        sockets_of(plan, requests, replies).len() == plan.vrings.len(),
        forall|i: int|
            0 <= i < plan.vrings.len() ==> {
                &&& (#[trigger] sockets_of(plan, requests, replies)[i]) is Some
                    <==> plan.vrings[i] is Configured
                &&& sockets_of(plan, requests, replies)[i] is None <==> plan.vrings[i] is NotReady
            },
        forall|i: int, local: i32|
            #[trigger] entry_holds(sockets_of(plan, requests, replies), i, local) <==> exists|
                k: int,
            | #[trigger] call_accepted(requests, replies, k, i, local),
{
    lemma_sockets(plan, requests, replies);
    law_success_needs_usable_memory(plan, requests, replies);
    let sockets = sockets_of(plan, requests, replies);
    assert forall|i: int| 0 <= i < plan.vrings.len() implies {
        &&& (#[trigger] sockets[i]) is Some <==> plan.vrings[i] is Configured
        &&& sockets[i] is None <==> plan.vrings[i] is NotReady
    } by {
        assert(crate::handshake::is_configured(plan.vrings, i) <==> plan.vrings[i] is Configured);
        if let Some(local) = sockets[i] {
            assert(entry_holds(sockets, i, local));
        }
        assert(!(plan.vrings[i] is Unmapped));
    }
    assert forall|i: int, local: i32| #[trigger]
        entry_holds(sockets, i, local) <==> exists|k: int|
        #[trigger] call_accepted(requests, replies, k, i, local) by {
        if exists|k: int| #[trigger] call_accepted(requests, replies, k, i, local) {
            let k = choose|k: int| #[trigger] call_accepted(requests, replies, k, i, local);
            lemma_accepted_stays(plan, requests, replies, k, i, local);
        }
    }
}

/// A socket is kept from the moment the backend has accepted the other one, and in no
/// other case, also in a negotiation that fails later.
pub proof fn law_kept_sockets_are_the_accepted_ones(
    plan: PlanView,
    requests: Seq<Request>,
    replies: Seq<Reply>,
    i: int,
    local: i32,
)
    requires
        is_run(plan, requests, replies),
    ensures
        entry_holds(sockets_of(plan, requests, replies), i, local) <==> exists|k: int|
            #[trigger] call_accepted(requests, replies, k, i, local),
{
    lemma_sockets(plan, requests, replies);
    if exists|k: int| #[trigger] call_accepted(requests, replies, k, i, local) {
        let k = choose|k: int| #[trigger] call_accepted(requests, replies, k, i, local);
        lemma_accepted_stays(plan, requests, replies, k, i, local);
    }
}

/// The reply is what the negotiation hopes for.
pub open spec fn is_favourable(request: Request, reply: Reply) -> bool {
    match request {
        Request::GetFeatures => reply is Value,
        Request::GetProtocolFeatures => reply is Value,
        Request::DupKick { .. } => reply matches Reply::Status(fd) && fd >= 0,
        Request::GetFileFlags { .. } => reply matches Reply::Status(flags) && flags >= 0,
        Request::SetFileFlags { .. } => reply matches Reply::Status(status) && status >= 0,
        Request::OpenCallPair { .. } => reply matches Reply::Pair { status, .. } && status == 0,
        Request::ClosePair { .. } => true,
        Request::Finish => true,
        Request::Fail { .. } => true,
        _ => reply == Reply::Done,
    }
}

proof fn lemma_first_vring_succeeds(vrings: Seq<VringPlan>, index: int)
    requires
        0 <= index,
        vrings.len() <= usize::MAX,
        all_mapped(vrings, vrings.len() as int),
    ensures
        !is_failing(crate::handshake::first_vring_request(vrings, index)),
    decreases vrings.len() - index,
{
    if index < vrings.len() {
        assert(!(vrings[index] is Unmapped));
        lemma_first_vring_succeeds(vrings, index + 1);
    }
}

proof fn lemma_favourable_run(plan: PlanView, requests: Seq<Request>, replies: Seq<Reply>)
    requires
        is_run(plan, requests, replies),
        plan.table is Ok,
        all_mapped(plan.vrings, plan.vrings.len() as int),
        forall|k: int|
            0 <= k < replies.len() ==> is_favourable(requests[k], #[trigger] replies[k]),
    ensures
        !is_failing(requests.last()),
    decreases replies.len(),
{
    if replies.len() > 0 {
        lemma_run_is_shorter(plan, requests, replies);
        let earlier = requests.drop_last();
        let earlier_replies = replies.drop_last();
        assert forall|k: int| 0 <= k < earlier_replies.len() implies is_favourable(
            earlier[k],
            #[trigger] earlier_replies[k],
        ) by {
            assert(replies[k] == earlier_replies[k]);
        }
        lemma_favourable_run(plan, earlier, earlier_replies);
        let n = replies.len() - 1;
        assert(is_favourable(requests[n], replies[n]));
        assert(requests[n] == earlier.last());
        lemma_first_vring_succeeds(plan.vrings, 0);
        if let Request::SetVringEnable { index, .. } = earlier.last() {
            lemma_first_vring_succeeds(plan.vrings, index + 1);
        }
    }
}

/// Where there is memory to share, every part of every ready queue lies in guest
/// memory, and every reply is what the negotiation hopes for, it comes to a good end
/// after at most nine requests and ten more for each queue.
pub proof fn law_favourable_negotiation_succeeds(
    plan: PlanView,
    requests: Seq<Request>,
    replies: Seq<Reply>,
)
    requires
        is_run(plan, requests, replies),
        plan.table is Ok,
        forall|j: int| 0 <= j < plan.vrings.len() ==> !((#[trigger] plan.vrings[j]) is Unmapped),
        forall|k: int|
            0 <= k < replies.len() ==> is_favourable(requests[k], #[trigger] replies[k]),
        replies.len() >= plan.vrings.len() * 10 + 9,
    ensures
        requests.last() is Finish,
{
    lemma_favourable_run(plan, requests, replies);
    law_negotiation_ends(plan, requests, replies);
}

/// The first queue with a part that lies outside guest memory.
pub open spec fn is_first_unmapped(vrings: Seq<VringPlan>, i: int) -> bool {
    &&& 0 <= i < vrings.len()
    &&& vrings[i] is Unmapped
    &&& all_mapped(vrings, i)
}

/// No request is about queue number `i` or one after it.
pub open spec fn untouched_from(requests: Seq<Request>, i: int) -> bool {
    forall|k: int|
        0 <= k < requests.len() ==> (crate::handshake::queue_of(#[trigger] requests[k]) matches Some(
            index,
        ) ==> index < i)
}

proof fn lemma_untouched(plan: PlanView, requests: Seq<Request>, replies: Seq<Reply>, i: int)
    requires
        is_run(plan, requests, replies),
        is_first_unmapped(plan.vrings, i),
    ensures
        untouched_from(requests, i),
    decreases replies.len(),
{
    lemma_reached(plan, requests, replies);
    law_only_configured_queues_are_touched(plan, requests, replies, requests.len() - 1);
    if replies.len() > 0 {
        lemma_run_is_shorter(plan, requests, replies);
        let earlier = requests.drop_last();
        lemma_untouched(plan, earlier, replies.drop_last(), i);
        assert forall|k: int| 0 <= k < requests.len() implies (crate::handshake::queue_of(
            #[trigger] requests[k],
        ) matches Some(index) ==> index < i) by {
            if k < earlier.len() {
                assert(earlier[k] == requests[k]);
            }
        }
    }
}

/// The one way in which a negotiation can fail at the queue.
spec fn fails_at(vrings: Seq<VringPlan>, i: int, request: Request) -> bool {
    vrings[i] matches VringPlan::Unmapped { gpa } && request == (Request::Fail {
        error: HandshakeError::UnmappedAddress { gpa },
    })
}

proof fn lemma_first_vring_fails_at(vrings: Seq<VringPlan>, index: int, i: int)
    requires
        0 <= index <= i,
        vrings.len() <= usize::MAX,
        is_first_unmapped(vrings, i),
    ensures
        is_failing(crate::handshake::first_vring_request(vrings, index)) ==> fails_at(
            vrings,
            i,
            crate::handshake::first_vring_request(vrings, index),
        ),
    decreases i - index,
{
    if index < i {
        assert(!(vrings[index] is Unmapped));
        lemma_first_vring_fails_at(vrings, index + 1, i);
    }
}

proof fn lemma_favourable_failure(
    plan: PlanView,
    requests: Seq<Request>,
    replies: Seq<Reply>,
    i: int,
)
    requires
        is_run(plan, requests, replies),
        plan.table is Ok,
        is_first_unmapped(plan.vrings, i),
        forall|k: int|
            0 <= k < replies.len() ==> is_favourable(requests[k], #[trigger] replies[k]),
    ensures
        is_failing(requests.last()) ==> fails_at(plan.vrings, i, requests.last()),
    decreases replies.len(),
{
    if replies.len() > 0 {
        lemma_run_is_shorter(plan, requests, replies);
        lemma_untouched(plan, requests, replies, i);
        let earlier = requests.drop_last();
        let earlier_replies = replies.drop_last();
        assert forall|k: int| 0 <= k < earlier_replies.len() implies is_favourable(
            earlier[k],
            #[trigger] earlier_replies[k],
        ) by {
            assert(replies[k] == earlier_replies[k]);
        }
        lemma_favourable_failure(plan, earlier, earlier_replies, i);
        let n = replies.len() - 1;
        assert(is_favourable(requests[n], replies[n]));
        assert(requests[n] == earlier.last());
        lemma_first_vring_fails_at(plan.vrings, 0, i);
        if let Request::SetVringEnable { index, .. } = requests[n] {
            lemma_first_vring_fails_at(plan.vrings, index + 1, i);
        }
    }
}

/// A queue with a part outside guest memory ends the negotiation: nothing is asked about
/// it or a queue after it, and there is no good end. Where every reply is what the
/// negotiation hopes for, the end is the error that names the address.
pub proof fn law_unmapped_queue_ends_the_negotiation(
    plan: PlanView,
    requests: Seq<Request>,
    replies: Seq<Reply>,
    i: int,
)
    requires
        is_run(plan, requests, replies),
        is_first_unmapped(plan.vrings, i),
    ensures
        untouched_from(requests, i),
        !(requests.last() is Finish),
        ({
            &&& plan.table is Ok
            &&& forall|k: int|
                0 <= k < replies.len() ==> is_favourable(requests[k], #[trigger] replies[k])
            &&& replies.len() >= plan.vrings.len() * 10 + 9
        }) ==> (plan.vrings[i] matches VringPlan::Unmapped { gpa } && requests.last() == (
        Request::Fail { error: HandshakeError::UnmappedAddress { gpa } })),
{
    lemma_untouched(plan, requests, replies, i);
    if requests.last() is Finish {
        law_success_needs_usable_memory(plan, requests, replies);
    }
    law_negotiation_ends(plan, requests, replies);
    if plan.table is Ok && forall|k: int|
        0 <= k < replies.len() ==> is_favourable(requests[k], #[trigger] replies[k]) {
        lemma_favourable_failure(plan, requests, replies, i);
    }
}

/// Where there is a memory table, a queue that the guest has set up with a part at an
/// address in no region of its memory fails the negotiation, however the later parts and
/// queues lie: the error is one of invalid input and names that address, and nothing
/// is asked about the queue or one after it. This is so for the first such queue, if
/// every reply is what the negotiation hopes for.
pub proof fn law_part_without_memory_is_invalid_input(
    regions: Seq<GuestRegion>,
    queues: Seq<DeviceQueue>,
    shm: Option<VirtioShmRegion>,
    plan: PlanView,
    requests: Seq<Request>,
    replies: Seq<Reply>,
    i: int,
)
    requires
        is_run(plan, requests, replies),
        plan.table == crate::guest_memory::memory_table_of(regions, shm),
        plan.table is Ok,
        plan.vrings == crate::guest_memory::vring_plans_of(regions, queues, shm),
        0 <= i < queues.len(),
        crate::guest_memory::lacks_memory(regions, queues[i]),
        forall|j: int|
            0 <= j < i ==> !crate::guest_memory::lacks_memory(regions, #[trigger] queues[j]),
        forall|k: int|
            0 <= k < replies.len() ==> is_favourable(requests[k], #[trigger] replies[k]),
        replies.len() >= plan.vrings.len() * 10 + 9,
    ensures
        untouched_from(requests, i),
        requests.last() matches Request::Fail { error } && error.blames_input() && (
        error matches HandshakeError::UnmappedAddress { gpa } && crate::guest_memory::is_part(
            queues[i],
            gpa,
        ) && crate::guest_memory::host_addr_of(regions, gpa as int) is None),
{
    assert forall|j: int| 0 <= j <= i implies (crate::guest_memory::vring_plan_of(
        regions,
        #[trigger] queues[j],
    ) is Unmapped <==> j == i) by {
        crate::guest_memory::law_queue_without_memory_is_unmapped(regions, queues[j]);
    }
    crate::guest_memory::law_queue_without_memory_is_unmapped(regions, queues[i]);
    assert forall|j: int| 0 <= j <= i implies #[trigger] plan.vrings[j]
        == crate::guest_memory::vring_plan_of(regions, queues[j]) by {
        assert(crate::guest_memory::comes_to(regions, queues, shm, j));
    }
    assert forall|j: int| 0 <= j < i && j < plan.vrings.len() implies !((
    #[trigger] plan.vrings[j]) is Unmapped) by {
        assert(!(crate::guest_memory::vring_plan_of(regions, queues[j]) is Unmapped));
    }
    law_unmapped_queue_ends_the_negotiation(plan, requests, replies, i);
}

/// A negotiation that is over stays as it is.
pub proof fn law_end_is_final(plan: PlanView, request: Request, reply: Reply)
    requires
        is_over(request),
    ensures
        crate::handshake::next_request(plan, request, reply) == request,
{
}

/// No feature is set that the backend does not have, and none that the guest did
/// not accept but the protocol bit; what both sides agree on is kept.
pub proof fn law_negotiated_features(acked_features: u64, backend_features: u64)
    ensures
        ({
            let set = crate::handshake::negotiated(acked_features, backend_features);
            &&& set & !backend_features == 0
            &&& set & !(acked_features | crate::handshake::protocol_features_flag()) == 0
            &&& set & (acked_features & backend_features) == acked_features & backend_features
        }),
{
    let flag = crate::handshake::protocol_features_flag();
    assert({
        let set = (acked_features | flag) & backend_features;
        &&& set & !backend_features == 0
        &&& set & !(acked_features | flag) == 0
        &&& set & (acked_features & backend_features) == acked_features & backend_features
    }) by (bit_vector);
}

} // verus!
