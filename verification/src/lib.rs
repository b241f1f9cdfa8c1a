//! Host side of the conduit device: a virtio device whose queues are served by a
//! backend in another process, which is reached over a vhost-user socket.
//!
//! The library decides and computes; it does no input or output. Where the device
//! has to talk to the backend or to the system, a state machine says what to do
//! next and is told how it went: `handshake` for the negotiation with the backend,
//! `shareable_mem` for the shared memory behind guest RAM, `call_routing` for the
//! backend's calls, and `activation` for the order in which the device is put in use.

pub mod activation;
pub mod align;
pub mod call_routing;
pub mod device;
pub mod guest_memory;
pub mod handshake;
pub mod handshake_laws;
pub mod outside;
pub mod request_laws;
pub mod shareable_mem;
pub mod shm;
