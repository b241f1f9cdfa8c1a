//! The conduit device as the virtio bus sees it.

use std::path::PathBuf;

use vm_memory::GuestMemoryMmap;
use vstd::prelude::*;

use crate::guest_memory::{main_ram_shareable, plan_handshake, regions_of, DeviceQueue};
use crate::handshake::{HandshakeError, HandshakePlan, QUEUE_SIZE};

verus! {

/// The virtio device type under which the guest's driver looks for the conduit.
pub const TYPE_VHOST_USER_CONDUIT: u32 = 42;

pub const VQ_CTRL: usize = 0;

pub const VQ_EVENT: usize = 1;

pub const VQ_DOORBELL: usize = 2;

/// How many queues the device has.
pub const QUEUE_COUNT: usize = 3;

/// The feature bit of a device that follows version 1 of the virtio standard.
pub const VIRTIO_F_VERSION_1: u32 = 32;

/// A descriptor of the system.
pub type RawFd = i32;

/// Path the backend's UNIX socket is reached on.
#[derive(Debug)]
pub struct VhostUserConduitConfig {
    pub socket: PathBuf,
}

impl Clone for VhostUserConduitConfig {
    fn clone(&self) -> (copy: Self)
        ensures
            copy == *self,
    {
        VhostUserConduitConfig { socket: self.socket.clone() }
    }
}

/// How large a queue can be.
#[derive(Clone, Copy, Debug, PartialEq, Eq, Structural)]
pub struct QueueConfig {
    pub size: u16,
}

/// A region of host memory that the guest sees.
#[derive(Clone, Copy, Debug, PartialEq, Eq, Structural)]
pub struct VirtioShmRegion {
    pub host_addr: u64,
    pub guest_addr: u64,
    pub size: usize,
}

/// Why the device could not be activated.
#[derive(Clone, Copy, Debug, PartialEq, Eq, Structural)]
pub enum ActivateError {
    BadActivate,
}

/// Whether the device is in use, and with what.
pub enum DeviceState<M> {
    Inactive,
    Activated(M),
}

/// An event that the device wants to be told of.
#[derive(Clone, Copy, Debug, PartialEq, Eq, Structural)]
pub enum EventSet {
    In,
}

/// What the device does about an event.
#[derive(Clone, Copy, Debug, PartialEq, Eq, Structural)]
pub enum EventAction {
    /// Nothing.
    Ignore,
    /// Read the activation event.
    ReadActivateEvent,
    /// Do not watch this descriptor any more.
    Unregister { fd: RawFd },
}

/// What a `VhostUserConduit` stands for.
///
/// `call_local_fds` has an entry for each queue. It is empty where the queue was not
/// ready when the device was activated.
#[verifier::ext_equal]
#[verifier::reject_recursive_types(F)]
#[verifier::reject_recursive_types(Q)]
#[verifier::reject_recursive_types(M)]
pub struct DeviceView<F, Q, M> {
    pub config: VhostUserConduitConfig,
    pub avail_features: u64,
    pub acked_features: u64,
    pub device_state: DeviceState<M>,
    pub activate_evt: RawFd,
    pub queues: Option<Seq<Q>>,
    pub virtio_shm_region: Option<VirtioShmRegion>,
    pub frontend: Option<F>,
    pub call_local_fds: Seq<Option<RawFd>>,
}

/// The conduit device.
///
/// `F` is a connection to a backend, `Q` a queue, and `M` what else the device
/// needs while it is in use: the guest's memory and a way to interrupt the guest.
pub struct VhostUserConduit<F, Q, M> {
    config: VhostUserConduitConfig,
    avail_features: u64,
    acked_features: u64,
    device_state: DeviceState<M>,
    activate_evt: RawFd,
    queues: Option<Vec<Q>>,
    virtio_shm_region: Option<VirtioShmRegion>,
    frontend: Option<F>,
    call_local_fds: Vec<Option<RawFd>>,
}

impl<F, Q, M> DeviceView<F, Q, M> {
    /// The device holds a connection and queues just while it is in use.
    pub open spec fn wf(self) -> bool {
        &&& self.device_state is Activated <==> self.frontend is Some
        &&& self.device_state is Activated <==> self.queues is Some
    }
}

impl<F, Q, M> View for VhostUserConduit<F, Q, M> {
    type V = DeviceView<F, Q, M>;

    closed spec fn view(&self) -> DeviceView<F, Q, M> {
        DeviceView {
            config: self.config,
            avail_features: self.avail_features,
            acked_features: self.acked_features,
            device_state: self.device_state,
            activate_evt: self.activate_evt,
            queues: match self.queues {
                Some(queues) => Some(queues@),
                None => None,
            },
            virtio_shm_region: self.virtio_shm_region,
            frontend: self.frontend,
            call_local_fds: self.call_local_fds@,
        }
    }
}

/// A call of a method that may change the device. No other method does.
#[verifier::reject_recursive_types(F)]
#[verifier::reject_recursive_types(Q)]
#[verifier::reject_recursive_types(M)]
pub enum DeviceCall<F, Q, M> {
    SetVirtioShmRegion { region: VirtioShmRegion },
    SetAckedFeatures { acked_features: u64 },
    WriteConfig,
    /// An activation that succeeds.
    Activate { queues: Seq<Q>, frontend: F, call_local_fds: Seq<Option<RawFd>>, context: M },
    /// An activation that fails.
    ActivateInVain,
    Reset,
}

/// What a device stands for before anything was done with it.
pub open spec fn new_device<F, Q, M>(
    config: VhostUserConduitConfig,
    activate_evt: RawFd,
) -> DeviceView<F, Q, M> {
    DeviceView {
        config,
        avail_features: 0x1_0000_0000u64,
        acked_features: 0,
        device_state: DeviceState::Inactive,
        activate_evt,
        queues: None,
        virtio_shm_region: None,
        frontend: None,
        call_local_fds: Seq::empty(),
    }
}

/// What the device stands for after a call.
pub open spec fn after_call<F, Q, M>(
    device: DeviceView<F, Q, M>,
    call: DeviceCall<F, Q, M>,
) -> DeviceView<F, Q, M> {
    match call {
        DeviceCall::SetVirtioShmRegion { region } => DeviceView {
            virtio_shm_region: Some(region),
            ..device
        },
        DeviceCall::SetAckedFeatures { acked_features } => DeviceView { acked_features, ..device },
        DeviceCall::WriteConfig => device,
        DeviceCall::Activate { queues, frontend, call_local_fds, context } => DeviceView {
            device_state: DeviceState::Activated(context),
            queues: Some(queues),
            frontend: Some(frontend),
            call_local_fds,
            ..device
        },
        DeviceCall::ActivateInVain => device,
        DeviceCall::Reset => DeviceView {
            frontend: None,
            queues: None,
            device_state: DeviceState::Inactive,
            ..device
        },
    }
}

/// What the device stands for after some calls, one after the other.
pub open spec fn after_calls<F, Q, M>(
    device: DeviceView<F, Q, M>,
    calls: Seq<DeviceCall<F, Q, M>>,
) -> DeviceView<F, Q, M>
    decreases calls.len(),
{
    if calls.len() == 0 {
        device
    } else {
        after_call(after_calls(device, calls.drop_last()), calls.last())
    }
}

/// Call number `k` activated the device, and it was not reset after that.
pub open spec fn activated_since<F, Q, M>(calls: Seq<DeviceCall<F, Q, M>>, k: int) -> bool {
    &&& 0 <= k < calls.len()
    &&& calls[k] is Activate
    &&& forall|j: int| k < j < calls.len() ==> !((#[trigger] calls[j]) is Reset)
}

/// The device has its three queues, and main RAM can be mapped by the backend.
pub open spec fn can_activate(mem: GuestMemoryMmap, queues: int) -> bool {
    let regions = crate::guest_memory::guest_regions(mem);
    queues == QUEUE_COUNT && regions.len() > 0 && regions[0].file is Some
}

/// The call that `activate` amounts to.
pub open spec fn activate_call<F, Q, M>(
    mem: GuestMemoryMmap,
    queues: Seq<Q>,
    negotiated: Result<(F, Vec<Option<RawFd>>), HandshakeError>,
    context: M,
) -> DeviceCall<F, Q, M> {
    match negotiated {
        Ok((frontend, call_local_fds)) if can_activate(
            mem,
            queues.len() as int,
        ) => DeviceCall::Activate {
            queues,
            frontend,
            call_local_fds: call_local_fds@,
            context,
        },
        _ => DeviceCall::ActivateInVain,
    }
}

impl<F, Q, M> VhostUserConduit<F, Q, M> {
    /// A device that is not in use. It offers just the feature of following version
    /// 1 of the virtio standard. `activate_evt` is the event by which it tells that
    /// it was activated.
    pub fn new(config: VhostUserConduitConfig, activate_evt: RawFd) -> (device: Self)
        ensures
            device@ == new_device::<F, Q, M>(config, activate_evt),
            device@.config == config,
            device@.avail_features == 0x1_0000_0000u64,
            device@.acked_features == 0,
            device@.device_state is Inactive,
            device@.activate_evt == activate_evt,
            device@.queues is None,
            device@.virtio_shm_region is None,
            device@.frontend is None,
            device@.call_local_fds.len() == 0,
            device@.wf(),
    {
        assert(1u64 << 32u32 == 0x1_0000_0000u64) by (bit_vector);
        VhostUserConduit {
            config,
            avail_features: 1u64 << VIRTIO_F_VERSION_1,
            acked_features: 0,
            device_state: DeviceState::Inactive,
            activate_evt,
            queues: None,
            virtio_shm_region: None,
            frontend: None,
            call_local_fds: Vec::new(),
        }
    }

    /// Sets the region of host memory that the guest sees.
    pub fn set_virtio_shm_region(&mut self, region: VirtioShmRegion)
        ensures
            final(self)@ == after_call(old(self)@, DeviceCall::SetVirtioShmRegion { region }),
            final(self)@ == (DeviceView { virtio_shm_region: Some(region), ..old(self)@ }),
    {
        self.virtio_shm_region = Some(region);
    }

    /// The event by which the device tells that it was activated.
    pub fn activate_event(&self) -> (fd: RawFd)
        ensures
            fd == self@.activate_evt,
    {
        self.activate_evt
    }

    pub fn config(&self) -> (config: &VhostUserConduitConfig)
        ensures
            *config == self@.config,
    {
        &self.config
    }

    pub fn avail_features(&self) -> (features: u64)
        ensures
            features == self@.avail_features,
    {
        self.avail_features
    }

    pub fn acked_features(&self) -> (features: u64)
        ensures
            features == self@.acked_features,
    {
        self.acked_features
    }

    pub fn set_acked_features(&mut self, acked_features: u64)
        ensures
            final(self)@ == after_call(old(self)@, DeviceCall::SetAckedFeatures { acked_features }),
            final(self)@ == (DeviceView { acked_features, ..old(self)@ }),
    {
        self.acked_features = acked_features;
    }

    pub fn device_type(&self) -> (device_type: u32)
        ensures
            device_type == TYPE_VHOST_USER_CONDUIT,
            device_type == 42,
    {
        TYPE_VHOST_USER_CONDUIT
    }

    pub fn device_name(&self) -> (name: &str)
        ensures
            name@ == "vhost-user-conduit"@,
    {
        "vhost-user-conduit"
    }

    /// The sizes of the queues.
    pub fn queue_config(&self) -> (configs: [QueueConfig; 3])
        ensures
            configs@ == seq![
                QueueConfig { size: 256 },
                QueueConfig { size: 256 },
                QueueConfig { size: 256 },
            ],
    {
        [
            QueueConfig { size: QUEUE_SIZE },
            QueueConfig { size: QUEUE_SIZE },
            QueueConfig { size: QUEUE_SIZE },
        ]
    }

    /// The device has no configuration space: whatever is read from it is zero.
    pub fn read_config(&self, _offset: u64, data: &mut [u8])
        ensures
            final(data)@ == Seq::new(old(data)@.len(), |i: int| 0u8),
    {
        let len: usize = data.len();
        let mut i: usize = 0;
        while i < len
            invariant
                i <= len,
                len == data@.len(),
                len == old(data)@.len(),
                forall|j: int| 0 <= j < i ==> #[trigger] data@[j] == 0u8,
            decreases len - i,
        {
            data[i] = 0;
            i = i + 1;
        }
        assert(data@ =~= Seq::new(old(data)@.len(), |i: int| 0u8));
    }

    /// The device has no configuration space: nothing comes of writing to it.
    pub fn write_config(&mut self, _offset: u64, _data: &[u8])
        ensures
            *final(self) == *old(self),
            final(self)@ == after_call(old(self)@, DeviceCall::WriteConfig),
    {
    }

    /// Whether it makes sense to talk to the backend: the device has its three queues,
    /// and main RAM can be mapped by another process.
    pub fn check_activation(&self, mem: &GuestMemoryMmap, queues: usize) -> (checked: Result<
        (),
        ActivateError,
    >)
        ensures
            checked == (if can_activate(*mem, queues as int) {
                Ok::<(), ActivateError>(())
            } else {
                Err(ActivateError::BadActivate)
            }),
            checked is Ok <==> queues == 3 && crate::guest_memory::guest_regions(*mem).len() > 0
                && crate::guest_memory::guest_regions(*mem)[0].file is Some,
            checked is Err ==> checked == Err::<(), ActivateError>(ActivateError::BadActivate),
    {
        if queues != QUEUE_COUNT {
            return Err(ActivateError::BadActivate);
        }
        if !main_ram_shareable(&regions_of(mem)) {
            return Err(ActivateError::BadActivate);
        }
        Ok(())
    }

    /// Prepares the negotiation with the features that the guest accepted. The memory
    /// that the device shows the guest stays out of the memory table.
    ///
    /// `None` just where `plan_handshake` gives it.
    pub fn plan_negotiation(
        &self,
        mem: &GuestMemoryMmap,
        queues: &Vec<DeviceQueue>,
    ) -> (plan: Option<HandshakePlan>)
        ensures
            plan is None <==> crate::guest_memory::needs_bad_lookup(
                crate::guest_memory::guest_regions(*mem),
                queues@,
                self@.virtio_shm_region,
            ),
            plan matches Some(p) ==> {
                &&& p.acked_features == self@.acked_features
                &&& crate::guest_memory::table_view(p.table)
                    == crate::guest_memory::memory_table_of(
                    crate::guest_memory::guest_regions(*mem),
                    self@.virtio_shm_region,
                )
                &&& p.vrings@ == crate::guest_memory::vring_plans_of(
                    crate::guest_memory::guest_regions(*mem),
                    queues@,
                    self@.virtio_shm_region,
                )
                &&& p.vrings@.len() == queues@.len()
            },
            plan matches Some(p) ==> p.table is Ok && (forall|i: int|
                0 <= i < queues@.len() && (#[trigger] queues@[i]).ready ==> {
                    let regions = crate::guest_memory::guest_regions(*mem);
                    let queue = queues@[i];
                    &&& crate::guest_memory::host_addr_of(regions, queue.desc_table.0 as int) is Some
                    &&& crate::guest_memory::host_addr_of(regions, queue.used_ring.0 as int) is Some
                    &&& crate::guest_memory::host_addr_of(regions, queue.avail_ring.0 as int) is Some
                }) ==> forall|i: int|
                0 <= i < queues@.len() ==> ((#[trigger] p.vrings@[i]) is Configured
                    <==> queues@[i].ready),
    {
        plan_handshake(mem, queues, self.acked_features, self.virtio_shm_region)
    }

    /// Puts the device in use, given how the negotiation with the backend ended: with
    /// a connection and the sockets on which the backend calls, by queue, or with an
    /// error. A device that cannot be activated stays as it is.
    pub fn activate(
        &mut self,
        mem: &GuestMemoryMmap,
        queues: Vec<Q>,
        negotiated: Result<(F, Vec<Option<RawFd>>), HandshakeError>,
        context: M,
    ) -> (activated: Result<(), ActivateError>)
        ensures
            activated == (if can_activate(*mem, queues@.len() as int) && negotiated is Ok {
                Ok::<(), ActivateError>(())
            } else {
                Err(ActivateError::BadActivate)
            }),
            final(self)@ == after_call(
                old(self)@,
                activate_call(*mem, queues@, negotiated, context),
            ),
            activated is Err ==> final(self)@ == old(self)@,
            activated is Ok <==> negotiated is Ok && queues@.len() == 3
                && crate::guest_memory::guest_regions(*mem).len() > 0
                && crate::guest_memory::guest_regions(*mem)[0].file is Some,
            activated is Ok ==> final(self)@ == (DeviceView {
                device_state: DeviceState::Activated(context),
                queues: Some(queues@),
                frontend: Some((negotiated->Ok_0).0),
                call_local_fds: (negotiated->Ok_0).1@,
                ..old(self)@
            }),
            old(self)@.wf() ==> final(self)@.wf(),
    {
        match self.check_activation(mem, queues.len()) {
            Ok(()) => {},
            Err(e) => return Err(e),
        }
        match negotiated {
            Ok((frontend, call_local_fds)) => {
                self.frontend = Some(frontend);
                self.call_local_fds = call_local_fds;
                self.queues = Some(queues);
                self.device_state = DeviceState::Activated(context);
                Ok(())
            },
            Err(_) => Err(ActivateError::BadActivate),
        }
    }

    pub fn is_activated(&self) -> (activated: bool)
        ensures
            activated == (self@.device_state is Activated),
    {
        match self.device_state {
            DeviceState::Activated(_) => true,
            DeviceState::Inactive => false,
        }
    }

    /// Takes the device out of use. The connection is dropped, so that the backend can
    /// be restarted on its own.
    pub fn reset(&mut self) -> (done: bool)
        ensures
            done,
            final(self)@ == after_call(old(self)@, DeviceCall::Reset),
            final(self)@ == (DeviceView {
                frontend: None::<F>,
                queues: None::<Seq<Q>>,
                device_state: DeviceState::<M>::Inactive,
                ..old(self)@
            }),
            final(self)@.wf(),
    {
        self.frontend = None;
        self.queues = None;
        self.device_state = DeviceState::Inactive;
        true
    }

    pub fn shm_region(&self) -> (region: Option<&VirtioShmRegion>)
        ensures
            match region {
                Some(r) => self@.virtio_shm_region == Some(*r),
                None => self@.virtio_shm_region is None,
            },
    {
        self.virtio_shm_region.as_ref()
    }

    /// What to do when something happens at a descriptor. Only the activation event
    /// concerns the device.
    pub fn process(&self, source: RawFd) -> (action: EventAction)
        ensures
            action == (if source == self@.activate_evt {
                EventAction::ReadActivateEvent
            } else {
                EventAction::Ignore
            }),
    {
        if source == self.activate_evt {
            EventAction::ReadActivateEvent
        } else {
            EventAction::Ignore
        }
    }

    /// What to do after the activation event was read. It comes once; if it could not
    /// be read it is waited for again.
    pub fn activate_event_read(&self, read: bool) -> (action: EventAction)
        ensures
            action == (if read {
                EventAction::Unregister { fd: self@.activate_evt }
            } else {
                EventAction::Ignore
            }),
    {
        if read {
            EventAction::Unregister { fd: self.activate_evt }
        } else {
            EventAction::Ignore
        }
    }

    /// The events that the device wants to be told of, each with the number that
    /// identifies it.
    pub fn interest_list(&self) -> (events: Vec<(EventSet, u64)>)
        ensures
            events@ == seq![(EventSet::In, self@.activate_evt as u64)],
    {
        let mut events: Vec<(EventSet, u64)> = Vec::new();
        events.push((EventSet::In, self.activate_evt as u64));
        assert(events@ =~= seq![(EventSet::In, self@.activate_evt as u64)]);
        events
    }
}

/// Whatever is done with a new device, in whatever order: it is in use just where an
/// activation succeeded and no reset came after it.
pub proof fn law_activated_until_reset<F, Q, M>(
    config: VhostUserConduitConfig,
    activate_evt: RawFd,
    calls: Seq<DeviceCall<F, Q, M>>,
)
    ensures
        after_calls(new_device(config, activate_evt), calls).device_state is Activated
            <==> exists|k: int| #[trigger] activated_since(calls, k),
    decreases calls.len(),
{
    if calls.len() > 0 {
        let earlier = calls.drop_last();
        let n = calls.len() - 1;
        law_activated_until_reset(config, activate_evt, earlier);
        if calls.last() is Activate {
            assert(activated_since(calls, n));
        } else if calls.last() is Reset {
            assert forall|k: int| !#[trigger] activated_since(calls, k) by {
                if 0 <= k < n {
                    assert(calls[n] is Reset);
                }
            }
        } else {
            if exists|k: int| #[trigger] activated_since(earlier, k) {
                let k = choose|k: int| #[trigger] activated_since(earlier, k);
                assert forall|j: int| k < j < calls.len() implies !((
                #[trigger] calls[j]) is Reset) by {
                    if j < n {
                        assert(earlier[j] == calls[j]);
                    }
                }
                assert(activated_since(calls, k));
            }
            if exists|k: int| #[trigger] activated_since(calls, k) {
                let k = choose|k: int| #[trigger] activated_since(calls, k);
                assert forall|j: int| k < j < earlier.len() implies !((
                #[trigger] earlier[j]) is Reset) by {
                    assert(earlier[j] == calls[j]);
                }
                assert(activated_since(earlier, k));
            }
        }
    }
}

/// A device can be activated just where it has three queues and the first region of
/// guest memory, which is main RAM, has a file. Whether other regions have one does not
/// matter.
pub proof fn law_activation_needs_three_queues_and_main_ram(mem: GuestMemoryMmap, queues: int)
    ensures
        can_activate(mem, queues) <==> queues == 3 && crate::guest_memory::guest_regions(mem).len()
            > 0 && crate::guest_memory::guest_regions(mem)[0].file is Some,
{
}

/// An activation takes the device into use just where the negotiation went well and the
/// device can be activated; what it is given is then what the device has.
pub proof fn law_activation_keeps_what_it_is_given<F, Q, M>(
    device: DeviceView<F, Q, M>,
    mem: GuestMemoryMmap,
    queues: Seq<Q>,
    negotiated: Result<(F, Vec<Option<RawFd>>), HandshakeError>,
    context: M,
)
    ensures
        ({
            let after = after_call(device, activate_call(mem, queues, negotiated, context));
            let regions = crate::guest_memory::guest_regions(mem);
            match negotiated {
                Ok((frontend, fds)) if queues.len() == 3 && regions.len() > 0
                    && regions[0].file is Some => {
                    &&& after.device_state == DeviceState::Activated(context)
                    &&& after.queues == Some(queues)
                    &&& after.frontend == Some(frontend)
                    &&& after.call_local_fds == fds@
                    &&& after.virtio_shm_region == device.virtio_shm_region
                    &&& after.acked_features == device.acked_features
                    &&& after.avail_features == device.avail_features
                },
                _ => after == device,
            }
        }),
{
}

/// Setters set what they name and nothing else, and a reset ends the use of the device
/// but keeps what was set; the last value that was set is the one that holds.
pub proof fn law_setters_and_reset_are_independent<F, Q, M>(
    device: DeviceView<F, Q, M>,
    region: VirtioShmRegion,
    features: u64,
    earlier: u64,
)
    ensures
        ({
            let shown = after_call(device, DeviceCall::SetVirtioShmRegion { region });
            let acked = after_call(device, DeviceCall::SetAckedFeatures { acked_features: features });
            let reset = after_call(device, DeviceCall::Reset);
            &&& shown == (DeviceView { virtio_shm_region: Some(region), ..device })
            &&& acked == (DeviceView { acked_features: features, ..device })
            &&& reset.device_state is Inactive
            &&& reset.queues is None
            &&& reset.frontend is None
            &&& reset == (DeviceView {
                device_state: reset.device_state,
                queues: reset.queues,
                frontend: reset.frontend,
                ..device
            })
            &&& after_call(device, DeviceCall::WriteConfig) == device
            &&& after_call(device, DeviceCall::ActivateInVain) == device
            &&& after_call(
                after_call(device, DeviceCall::SetAckedFeatures { acked_features: earlier }),
                DeviceCall::SetAckedFeatures { acked_features: features },
            ) == acked
        }),
{
}

/// Whatever is done with a device: its configuration, its event and the features that
/// it offers stay what they were, and it holds a connection and queues just while it
/// is in use.
pub proof fn law_calls_keep_the_device_whole<F, Q, M>(
    device: DeviceView<F, Q, M>,
    calls: Seq<DeviceCall<F, Q, M>>,
)
    requires
        device.wf(),
    ensures
        after_calls(device, calls).wf(),
        after_calls(device, calls).config == device.config,
        after_calls(device, calls).activate_evt == device.activate_evt,
        after_calls(device, calls).avail_features == device.avail_features,
    decreases calls.len(),
{
    if calls.len() > 0 {
        law_calls_keep_the_device_whole(device, calls.drop_last());
    }
}

} // verus!
