//! Rounding the addresses of pointers.

use vstd::prelude::*;
use vstd::arithmetic::power2::is_pow2;
use crate::addr::ceil_to;
use crate::addr::mask_up;
use crate::addr::Addr;

verus! {

/// The address `addr` of a pointer, rounded up to a multiple of `align`.
pub fn align_up(addr: usize, align: usize) -> (r: usize)
    requires
        align > 0,
        addr + align - 1 <= usize::MAX,
    ensures
        r == mask_up(addr as u64, align as u64),
        addr <= r <= addr + align - 1,
        is_pow2(align as int) ==> r == ceil_to(addr as int, align as int),
{
    let wide = (addr as u64).align_up(align as u64);
    proof {
        crate::addr::lemma_mask_up_bound(addr as u64, align as u64);
    }
    wide as usize
}

} // verus!
