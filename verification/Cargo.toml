[package]
name = "virtio_devices"
version = "0.1.0"
edition = "2021"
publish = false

[dependencies]
vm-memory = { version = "*", features = ["backend-mmap", "backend-bitmap"] }
aws-lc-rs = "*"
vm-allocator = "*"
vmm-sys-util = "*"
libc = "*"
memfd = "*"
thiserror = "*"
displaydoc = "*"
serde = { version = "*", features = ["derive"] }
log = "*"
