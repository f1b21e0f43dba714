//! What the kernel decides about interrupts, apart from the hardware.

pub mod pic;
