[package]
name = "vhost_user_conduit"
version = "0.1.0"
edition = "2021"
publish = false

[dependencies]
libc = "0.2"
log = "0.4"
vhost = { version = "0.15", features = ["vhost-user-frontend"] }
vm-memory = { version = "0.17", features = ["backend-mmap"] }
vmm-sys-util = "0.15"
