//! What the kernel's device drivers compute, apart from the devices.

pub mod vga;
