//! Boot-time memory management for a bare-metal x86-64 kernel, with the
//! address arithmetic and the small value types the rest of the kernel
//! shares.
//!
//! The library decides and computes; it touches no hardware. What it is
//! given are plain values and the bootloader's memory map, and what it hands
//! back are addresses, frames and bytes for its caller to act on.

pub mod addr;
pub mod ansi_term;
pub mod devices;
pub mod heap;
pub mod interrupts;
pub mod mem;
pub mod range;
pub mod units;
pub mod vmem;

pub use range::Range;
pub use units::GiB;
pub use units::KiB;
pub use units::MiB;
pub use units::TiB;
