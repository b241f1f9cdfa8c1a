//! The negotiation between the device and its backend, one request at a time.
//!
//! A `Handshake` says what to do next; whoever owns the connection does it and
//! tells the `Handshake` how it went.

use vhost::vhost_user::message::VhostUserVirtioFeatures;
use vstd::prelude::*;

use crate::guest_memory::MemoryTableEntry;

verus! {

/// Number of descriptors that a queue can have.
pub const QUEUE_SIZE: u16 = 256;

/// Why the negotiation failed.
#[derive(Clone, Copy, Debug, PartialEq, Eq, Structural)]
pub enum HandshakeError {
    /// The backend could not be reached or refused a message.
    Backend,
    /// The system refused a descriptor or a change to one.
    System,
    /// No region of guest memory can be mapped by the backend.
    NoSharedMemory,
    /// A region to be published has no place in this process.
    UnmappedRegion,
    /// A part of a virtqueue lies at an address where the guest has no memory.
    UnmappedAddress { gpa: u64 },
}

impl HandshakeError {
    /// The fault lies with what the guest or its memory layout gave.
    pub open spec fn blames_input(self) -> bool {
        self is NoSharedMemory || self is UnmappedAddress
    }

    /// Whether the error is one of invalid input, not of the backend, of the system or
    /// of the host's own mapping.
    pub fn is_invalid_input(&self) -> (invalid: bool)
        ensures
            invalid == self.blames_input(),
            invalid <==> (self is NoSharedMemory || self is UnmappedAddress),
    {
        match self {
            HandshakeError::NoSharedMemory | HandshakeError::UnmappedAddress { .. } => true,
            HandshakeError::Backend
            | HandshakeError::System
            | HandshakeError::UnmappedRegion => false,
        }
    }
}

/// Where the backend finds the parts of a virtqueue.
#[derive(Clone, Copy, Debug, PartialEq, Eq, Structural)]
pub struct VringConfig {
    pub queue_max_size: u16,
    pub queue_size: u16,
    pub flags: u32,
    pub desc_table_addr: u64,
    pub used_ring_addr: u64,
    pub avail_ring_addr: u64,
    pub log_addr: Option<u64>,
}

/// What the negotiation does about one virtqueue.
#[derive(Clone, Copy, Debug, PartialEq, Eq, Structural)]
pub enum VringPlan {
    /// Nothing: the guest has not set the queue up, or the negotiation ends before it
    /// comes to the queue.
    NotReady,
    /// Give up: the queue has a part at this address, where there is no memory.
    Unmapped { gpa: u64 },
    /// Configure it.
    Configured { config: VringConfig, event_fd: i32 },
}

/// All that the negotiation needs to know beforehand.
#[derive(Debug)]
pub struct HandshakePlan {
    /// The features that the guest accepted.
    pub acked_features: u64,
    pub table: Result<Vec<MemoryTableEntry>, HandshakeError>,
    pub vrings: Vec<VringPlan>,
}

/// What the negotiation asks for.
#[derive(Clone, Copy, Debug, PartialEq, Eq, Structural)]
pub enum Request {
    /// Connect to the backend for so many queues. `need_reply` has it acknowledge
    /// every message.
    Connect { queues: u64, need_reply: bool },
    SetOwner,
    GetFeatures,
    SetFeatures { features: u64 },
    GetProtocolFeatures,
    SetProtocolFeatures { features: u64 },
    /// Send the plan's memory table.
    SetMemTable,
    SetVringNum { index: usize, num: u16 },
    SetVringAddr { index: usize, config: VringConfig },
    SetVringBase { index: usize, base: u16 },
    /// Duplicate a descriptor.
    DupKick { index: usize, event_fd: i32 },
    /// Send the duplicate; it is not needed after that.
    SetVringKick { index: usize, kick_fd: i32 },
    /// Open a pair of connected sockets.
    OpenCallPair { index: usize },
    GetFileFlags { index: usize, local: i32, remote: i32 },
    SetFileFlags { index: usize, local: i32, remote: i32, flags: i32 },
    /// Close both sockets.
    ClosePair { local: i32, remote: i32 },
    /// Send the remote socket, and close it here.
    SetVringCall { index: usize, local: i32, remote: i32 },
    SetVringEnable { index: usize, enable: bool },
    /// Nothing more to do: the backend is ready.
    Finish,
    /// Nothing more to do: the negotiation has failed.
    Fail { error: HandshakeError },
}

/// How a request went.
#[derive(Clone, Copy, Debug, PartialEq, Eq, Structural)]
pub enum Reply {
    /// A message was accepted.
    Done,
    /// A message was refused, or could not be sent.
    Refused,
    /// What the backend answered.
    Value(u64),
    /// What a system call returned; negative if it failed.
    Status(i32),
    /// What opening a pair of sockets returned, 0 if it worked, and the sockets.
    Pair { status: i32, local: i32, remote: i32 },
}

/// The feature bit that lets the two sides talk about protocol features.
pub open spec fn protocol_features_flag() -> u64 {
    0x4000_0000
}

/// Calls `bits` of `vhost::vhost_user::message::VhostUserVirtioFeatures` on its
/// constant `PROTOCOL_FEATURES`. Claimed: the bit has the number 30.
#[verifier::external_body]
fn protocol_features_bits() -> (bits: u64)
    ensures
        bits == protocol_features_flag(),
{
    VhostUserVirtioFeatures::PROTOCOL_FEATURES.bits()
}

/// The features to be set: of those that the guest accepted and the protocol
/// feature bit, the ones that the backend has.
pub open spec fn negotiated(acked_features: u64, backend_features: u64) -> u64 {
    (acked_features | protocol_features_flag()) & backend_features
}

/// What the negotiation depends on.
pub struct PlanView {
    pub acked_features: u64,
    pub table: Result<Seq<MemoryTableEntry>, HandshakeError>,
    pub vrings: Seq<VringPlan>,
    /// The flag that makes a descriptor nonblocking.
    pub nonblock: i32,
}

/// The first request about the queues from number `index` on. Queues that are not
/// ready are passed over.
pub open spec fn first_vring_request(vrings: Seq<VringPlan>, index: int) -> Request
    decreases vrings.len() - index,
{
    if index < 0 || index >= vrings.len() {
        Request::Finish
    } else {
        match vrings[index] {
            VringPlan::NotReady => first_vring_request(vrings, index + 1),
            VringPlan::Unmapped { gpa } => Request::Fail {
                error: HandshakeError::UnmappedAddress { gpa },
            },
            VringPlan::Configured { config, event_fd } => Request::SetVringNum {
                index: index as usize,
                num: config.queue_size,
            },
        }
    }
}

/// What follows a message that was accepted.
pub open spec fn after_accepted(plan: PlanView, request: Request) -> Request {
    match request {
        Request::Connect { .. } => Request::SetOwner,
        Request::SetOwner => Request::GetFeatures,
        Request::SetFeatures { .. } => Request::GetProtocolFeatures,
        Request::SetProtocolFeatures { .. } => match plan.table {
            Ok(_) => Request::SetMemTable,
            Err(error) => Request::Fail { error },
        },
        Request::SetMemTable => first_vring_request(plan.vrings, 0),
        Request::SetVringNum { index, .. } => Request::SetVringAddr {
            index,
            config: plan.vrings[index as int]->config,
        },
        Request::SetVringAddr { index, .. } => Request::SetVringBase { index, base: 0 },
        Request::SetVringBase { index, .. } => Request::DupKick {
            index,
            event_fd: plan.vrings[index as int]->event_fd,
        },
        Request::SetVringKick { index, .. } => Request::OpenCallPair { index },
        Request::SetVringCall { index, .. } => Request::SetVringEnable { index, enable: true },
        Request::SetVringEnable { index, .. } => first_vring_request(plan.vrings, index + 1),
        _ => Request::Fail { error: HandshakeError::Backend },
    }
}

/// What the negotiation asks for once it knows how `request` went. A reply of a
/// kind that does not fit the request counts as a failure.
pub open spec fn next_request(plan: PlanView, request: Request, reply: Reply) -> Request {
    match request {
        Request::Finish => Request::Finish,
        Request::Fail { error } => Request::Fail { error },
        Request::GetFeatures => match reply {
            Reply::Value(features) => Request::SetFeatures {
                features: negotiated(plan.acked_features, features),
            },
            _ => Request::Fail { error: HandshakeError::Backend },
        },
        Request::GetProtocolFeatures => match reply {
            Reply::Value(features) => Request::SetProtocolFeatures { features },
            _ => Request::Fail { error: HandshakeError::Backend },
        },
        Request::DupKick { index, .. } => match reply {
            Reply::Status(kick_fd) if kick_fd >= 0 => Request::SetVringKick { index, kick_fd },
            _ => Request::Fail { error: HandshakeError::System },
        },
        Request::OpenCallPair { index } => match reply {
            Reply::Pair { status, local, remote } if status == 0 => Request::GetFileFlags {
                index,
                local,
                remote,
            },
            _ => Request::Fail { error: HandshakeError::System },
        },
        Request::GetFileFlags { index, local, remote } => match reply {
            Reply::Status(flags) if flags >= 0 => Request::SetFileFlags {
                index,
                local,
                remote,
                flags: flags | plan.nonblock,
            },
            _ => Request::ClosePair { local, remote },
        },
        Request::SetFileFlags { index, local, remote, .. } => match reply {
            Reply::Status(status) if status >= 0 => Request::SetVringCall { index, local, remote },
            _ => Request::ClosePair { local, remote },
        },
        Request::ClosePair { .. } => Request::Fail { error: HandshakeError::System },
        _ => if reply == Reply::Done {
            after_accepted(plan, request)
        } else {
            Request::Fail { error: HandshakeError::Backend }
        },
    }
}

/// The sockets kept once it is known how `request` went. There is an entry for each
/// queue; it is filled when the backend accepts the other socket of the pair.
pub open spec fn kept_sockets(
    kept: Seq<Option<i32>>,
    request: Request,
    reply: Reply,
) -> Seq<Option<i32>> {
    match request {
        Request::SetVringCall { index, local, .. } if reply == Reply::Done => kept.update(
            index as int,
            Some(local),
        ),
        _ => kept,
    }
}

/// As many entries as there are queues, with no socket in any of them.
pub open spec fn no_sockets(queues: nat) -> Seq<Option<i32>> {
    Seq::new(queues, |i: int| None)
}

/// The queue that a request is about, if it is about one.
pub open spec fn queue_of(request: Request) -> Option<usize> {
    match request {
        Request::SetVringNum { index, .. } => Some(index),
        Request::SetVringAddr { index, .. } => Some(index),
        Request::SetVringBase { index, .. } => Some(index),
        Request::DupKick { index, .. } => Some(index),
        Request::SetVringKick { index, .. } => Some(index),
        Request::OpenCallPair { index } => Some(index),
        Request::GetFileFlags { index, .. } => Some(index),
        Request::SetFileFlags { index, .. } => Some(index),
        Request::SetVringCall { index, .. } => Some(index),
        Request::SetVringEnable { index, .. } => Some(index),
        _ => None,
    }
}

/// A request about a queue is about one that is to be configured.
pub open spec fn request_fits(vrings: Seq<VringPlan>, request: Request) -> bool {
    queue_of(request) matches Some(index) ==> is_configured(vrings, index as int)
}

/// The queue is to be configured.
pub open spec fn is_configured(vrings: Seq<VringPlan>, index: int) -> bool {
    0 <= index < vrings.len() && vrings[index] is Configured
}

/// A negotiation under way.
pub struct Handshake {
    plan: HandshakePlan,
    nonblock: i32,
    request: Request,
    call_local_fds: Vec<Option<i32>>,
}

impl Handshake {
    /// What the negotiation depends on.
    pub closed spec fn plan(&self) -> PlanView {
        PlanView {
            acked_features: self.plan.acked_features,
            table: crate::guest_memory::table_view(self.plan.table),
            vrings: self.plan.vrings@,
            nonblock: self.nonblock,
        }
    }

    /// What is asked for.
    pub closed spec fn pending(&self) -> Request {
        self.request
    }

    /// The sockets kept so far, by queue.
    pub closed spec fn sockets(&self) -> Seq<Option<i32>> {
        self.call_local_fds@
    }

    /// A request about a queue is one about a queue to be configured, and there is an
    /// entry for each queue's socket.
    pub open spec fn wf(&self) -> bool {
        &&& request_fits(self.plan().vrings, self.pending())
        &&& self.sockets().len() == self.plan().vrings.len()
    }

    /// Starts a negotiation. `nonblock` is the system's flag for nonblocking
    /// descriptors.
    pub fn new(plan: HandshakePlan, nonblock: i32) -> (handshake: Handshake)
        ensures
            handshake.wf(),
            handshake.plan() == (PlanView {
                acked_features: plan.acked_features,
                table: crate::guest_memory::table_view(plan.table),
                vrings: plan.vrings@,
                nonblock,
            }),
            handshake.pending() == (Request::Connect {
                queues: plan.vrings@.len() as u64,
                need_reply: true,
            }),
            handshake.sockets() == no_sockets(plan.vrings@.len()),
            handshake.sockets().len() == plan.vrings@.len(),
            forall|i: int|
                0 <= i < plan.vrings@.len() ==> (#[trigger] handshake.sockets()[i]) is None,
    {
        let request = Request::Connect { queues: plan.vrings.len() as u64, need_reply: true };
        let mut call_local_fds: Vec<Option<i32>> = Vec::new();
        let mut i: usize = 0;
        while i < plan.vrings.len()
            invariant
                i <= plan.vrings@.len(),
                call_local_fds@ == no_sockets(i as nat),
            decreases plan.vrings@.len() - i,
        {
            call_local_fds.push(None);
            i = i + 1;
            assert(call_local_fds@ =~= no_sockets(i as nat));
        }
        Handshake { plan, nonblock, request, call_local_fds }
    }

    /// What is to be done next.
    pub fn request(&self) -> (request: Request)
        ensures
            request == self.pending(),
    {
        self.request
    }

    /// The memory table that `Request::SetMemTable` speaks of.
    pub fn memory_table(&self) -> (table: Option<&Vec<MemoryTableEntry>>)
        ensures
            match table {
                Some(entries) => self.plan().table == Ok::<_, HandshakeError>(entries@),
                None => self.plan().table is Err,
            },
    {
        match &self.plan.table {
            Ok(table) => Some(table),
            Err(_) => None,
        }
    }

    /// The sockets on which the backend's calls arrive, once the negotiation is over:
    /// one entry for each queue, empty for a queue that was passed over.
    pub fn into_call_local_fds(self) -> (fds: Vec<Option<i32>>)
        ensures
            fds@ == self.sockets(),
    {
        self.call_local_fds
    }

    /// The first request about the queues from number `start` on.
    fn enter_vring(&self, start: usize) -> (request: Request)
        requires
            start <= self.plan().vrings.len(),
        ensures
            request == first_vring_request(self.plan().vrings, start as int),
            request_fits(self.plan().vrings, request),
    {
        let mut index: usize = start;
        while index < self.plan.vrings.len()
            invariant
                index <= self.plan.vrings@.len(),
                self.plan().vrings == self.plan.vrings@,
                first_vring_request(self.plan.vrings@, start as int) == first_vring_request(
                    self.plan.vrings@,
                    index as int,
                ),
            decreases self.plan.vrings@.len() - index,
        {
            match self.plan.vrings[index] {
                VringPlan::NotReady => {},
                VringPlan::Unmapped { gpa } => {
                    return Request::Fail { error: HandshakeError::UnmappedAddress { gpa } };
                },
                VringPlan::Configured { config, .. } => {
                    return Request::SetVringNum { index, num: config.queue_size };
                },
            }
            index = index + 1;
        }
        Request::Finish
    }

    /// The first request about queue `index` after its size is set.
    fn address_vring(&self, index: usize) -> (request: Request)
        requires
            is_configured(self.plan().vrings, index as int),
        ensures
            request == (Request::SetVringAddr {
                index,
                config: self.plan().vrings[index as int]->config,
            }),
    {
        match self.plan.vrings[index] {
            VringPlan::Configured { config, .. } => Request::SetVringAddr { index, config },
            _ => Request::Finish,
        }
    }

    /// The request that prepares the kicks of queue `index`.
    fn kick_vring(&self, index: usize) -> (request: Request)
        requires
            is_configured(self.plan().vrings, index as int),
        ensures
            request == (Request::DupKick {
                index,
                event_fd: self.plan().vrings[index as int]->event_fd,
            }),
    {
        match self.plan.vrings[index] {
            VringPlan::Configured { event_fd, .. } => Request::DupKick { index, event_fd },
            _ => Request::Finish,
        }
    }

    /// What follows a message that was accepted.
    fn accepted(&self) -> (request: Request)
        requires
            self.wf(),
        ensures
            request == after_accepted(self.plan(), self.pending()),
            request_fits(self.plan().vrings, request),
    {
        assert(self.plan.vrings.len() <= usize::MAX);
        match self.request {
            Request::Connect { .. } => Request::SetOwner,
            Request::SetOwner => Request::GetFeatures,
            Request::SetFeatures { .. } => Request::GetProtocolFeatures,
            Request::SetProtocolFeatures { .. } => match &self.plan.table {
                Ok(_) => Request::SetMemTable,
                Err(error) => Request::Fail { error: *error },
            },
            Request::SetMemTable => self.enter_vring(0),
            Request::SetVringNum { index, .. } => self.address_vring(index),
            Request::SetVringAddr { index, .. } => Request::SetVringBase { index, base: 0 },
            Request::SetVringBase { index, .. } => self.kick_vring(index),
            Request::SetVringKick { index, .. } => Request::OpenCallPair { index },
            Request::SetVringCall { index, .. } => Request::SetVringEnable { index, enable: true },
            Request::SetVringEnable { index, .. } => self.enter_vring(index + 1),
            _ => Request::Fail { error: HandshakeError::Backend },
        }
    }

    /// What is asked for next.
    fn successor(&self, reply: Reply) -> (request: Request)
        requires
            self.wf(),
        ensures
            request == next_request(self.plan(), self.pending(), reply),
            request_fits(self.plan().vrings, request),
    {
        match self.request {
            Request::Finish => Request::Finish,
            Request::Fail { error } => Request::Fail { error },
            Request::GetFeatures => match reply {
                Reply::Value(features) => Request::SetFeatures {
                    features: (self.plan.acked_features | protocol_features_bits()) & features,
                },
                _ => Request::Fail { error: HandshakeError::Backend },
            },
            Request::GetProtocolFeatures => match reply {
                Reply::Value(features) => Request::SetProtocolFeatures { features },
                _ => Request::Fail { error: HandshakeError::Backend },
            },
            Request::DupKick { index, .. } => match reply {
                Reply::Status(kick_fd) if kick_fd >= 0 => Request::SetVringKick { index, kick_fd },
                _ => Request::Fail { error: HandshakeError::System },
            },
            Request::OpenCallPair { index } => match reply {
                Reply::Pair { status, local, remote } if status == 0 => Request::GetFileFlags {
                    index,
                    local,
                    remote,
                },
                _ => Request::Fail { error: HandshakeError::System },
            },
            Request::GetFileFlags { index, local, remote } => match reply {
                Reply::Status(flags) if flags >= 0 => Request::SetFileFlags {
                    index,
                    local,
                    remote,
                    flags: flags | self.nonblock,
                },
                _ => Request::ClosePair { local, remote },
            },
            Request::SetFileFlags { index, local, remote, .. } => match reply {
                Reply::Status(status) if status >= 0 => Request::SetVringCall {
                    index,
                    local,
                    remote,
                },
                _ => Request::ClosePair { local, remote },
            },
            Request::ClosePair { .. } => Request::Fail { error: HandshakeError::System },
            _ => match reply {
                Reply::Done => self.accepted(),
                _ => Request::Fail { error: HandshakeError::Backend },
            },
        }
    }

    /// Goes on, knowing how the request went.
    pub fn advance(&mut self, reply: Reply)
        requires
            old(self).wf(),
        ensures
            final(self).wf(),
            final(self).plan() == old(self).plan(),
            final(self).pending() == next_request(old(self).plan(), old(self).pending(), reply),
            final(self).sockets() == kept_sockets(old(self).sockets(), old(self).pending(), reply),
            !(old(self).pending() is SetVringCall) || reply != Reply::Done ==> final(self).sockets()
                == old(self).sockets(),
            (old(self).pending() matches Request::SetVringCall { index, local, .. } ==> reply
                == Reply::Done ==> final(self).sockets() == old(self).sockets().update(
                index as int,
                Some(local),
            )),
    {
        let request = self.successor(reply);
        if let Request::SetVringCall { index, local, .. } = self.request {
            if let Reply::Done = reply {
                self.call_local_fds.set(index, Some(local));
            }
        }
        self.request = request;
    }
}

} // verus!
