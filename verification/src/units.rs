//! Binary size units, in bytes.

use vstd::prelude::*;

verus! {

/// One kibibyte.
#[allow(non_upper_case_globals)]
pub const KiB: u64 = 1024;

/// One mebibyte.
#[allow(non_upper_case_globals)]
pub const MiB: u64 = 1024 * 1024;

/// One gibibyte.
#[allow(non_upper_case_globals)]
pub const GiB: u64 = 1024 * 1024 * 1024;

/// One tebibyte.
#[allow(non_upper_case_globals)]
pub const TiB: u64 = 1024 * 1024 * 1024 * 1024;

} // verus!
