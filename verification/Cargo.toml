[package]
name = "dh_vmm"
version = "0.1.0"
edition = "2021"
publish = false

[dependencies]
blake3 = { version = "1", features = ["pure"] }
kvm-bindings = { version = "*", features = ["fam-wrappers"] }
kvm-ioctls = "*"
vm-memory = { version = "*", features = ["backend-mmap"] }
vmm-sys-util = "*"
libc = "0.2"
