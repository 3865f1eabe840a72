[package]
name = "dirt"
version = "0.1.0"
edition = "2021"
publish = false

[dependencies]
aya-ebpf = "0.1.1"
aya-log-ebpf = "0.1.0"
elf = "=0.8.0"
iced-x86 = "=1.22.0"
log = "0.4.35"
thiserror = "2.0.21"
