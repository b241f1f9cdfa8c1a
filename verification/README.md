# vhost_user_conduit

Host side of the conduit device: a virtio device with three queues that are
served by a backend process, reached over a vhost-user socket.

The library (`src/`) is verified with Verus. It decides and computes, and does no
input or output:

- `shm` hands out guest addresses to shared-memory regions. No two regions overlap.
- `align` rounds sizes up to whole pages.
- `guest_memory` lists guest memory, builds the table of memory that the backend may
  map, and translates the addresses of virtqueues. The memory that the guest sees of
  the host stays out of the table.
- `handshake` is the negotiation with the backend as a state machine;
  `handshake_laws` states what holds of every negotiation as a whole.
- `shareable_mem` names the shared-memory objects behind guest RAM and says which
  system calls their creation takes.
- `call_routing` turns the backend's calls into guest interrupts.
- `device` is the device as the virtio bus sees it, and `activation` the order in
  which it is put in use.
- `outside` declares types of other crates that are carried around unread.

`app/` runs the state machines on a real host: it owns the connection, the
descriptors and the threads.

What the proofs take for granted about other crates is written above each item
marked `external_body` and each `assume_specification`: how `vm_memory` lists and
looks up guest memory, the value of one feature bit of `vhost`, and that clones of
two carried values are equal to what was cloned.
