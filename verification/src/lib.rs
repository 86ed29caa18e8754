//! A small RV64 virtual platform: CPU, guest memory, devices, boot loading, and
//! the host-side state machine that drives it from a web page.

pub mod arith;
pub mod boot;
pub mod browser;
pub mod browser_abi;
pub mod browser_quantum;
pub mod browser_runtime;
pub mod browser_storage;
pub mod bytes;
pub mod config;
pub mod cpu;
pub mod crypto;
pub mod disk;
pub mod display;
pub mod entropy;
pub mod errors;
pub mod fdt;
pub mod fdt_reader;
pub mod guest_memory;
pub mod http_9p;
pub mod ieee;
pub mod laws;
pub mod listing;
pub mod machine;
pub mod memory;
pub mod ninep;
pub mod p9;
pub mod p9_client;
pub mod platform;
pub mod quantum;
pub mod registers;
pub mod rings;
pub mod running;
pub mod softfp;
pub mod text;
pub mod virtio;
pub mod virtio_devices;
pub mod wires;
