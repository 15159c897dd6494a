[package]
name = "axdevice"
version = "0.1.0"
edition = "2021"
publish = false

[dependencies]
axaddrspace = "=0.6.0"
axdevice_base = "=0.1.0"
axerrno = "=0.2.2"
log = "=0.4.34"
memory_addr = "=0.4.1"
