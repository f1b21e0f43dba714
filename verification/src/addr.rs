//! Rounding addresses to alignment boundaries, and splitting a span of
//! addresses at them.
//!
//! The executable code rounds with bit masks, as is usual. What a mask
//! computes is stated twice: as the mask itself, which holds for every
//! alignment, and as plain arithmetic (`floor_to`, `ceil_to`), which holds
//! when the alignment is a power of two.

use vstd::prelude::*;
use vstd::arithmetic::div_mod::lemma_fundamental_div_mod;
use vstd::arithmetic::div_mod::lemma_fundamental_div_mod_converse;
use vstd::arithmetic::div_mod::lemma_mod_bound;
use vstd::arithmetic::mul::lemma_mul_is_commutative;
use vstd::arithmetic::power2::is_pow2;
use vstd::arithmetic::power2::is_pow2_equiv;
use vstd::arithmetic::power2::lemma2_to64;
use vstd::arithmetic::power2::lemma_pow2_pos;
use vstd::arithmetic::power2::lemma_pow2_strictly_increases;
use vstd::arithmetic::power2::pow2;
use vstd::bits::lemma_u64_low_bits_mask_is_mod;
use vstd::bits::low_bits_mask;
use crate::range::Range;

verus! {

/// The greatest multiple of `align` that is not above `x`.
pub open spec fn floor_to(x: int, align: int) -> int {
    x - x % align
}

/// The least multiple of `align` that is not below `x`.
pub open spec fn ceil_to(x: int, align: int) -> int {
    floor_to(x + align - 1, align)
}

/// `addr` with every bit of `align - 1` cleared.
pub open spec fn mask_down(addr: u64, align: u64) -> u64 {
    addr & !((align - 1) as u64)
}

/// `addr + align - 1` with every bit of `align - 1` cleared.
pub open spec fn mask_up(addr: u64, align: u64) -> u64 {
    mask_down((addr + align - 1) as u64, align)
}

/// The three cut points of the span `[start, start + size)`, given the first
/// boundary `first` at or after `start`: the span falls into
/// `[start, cut.1)`, `[cut.1, cut.2)` and `[cut.2, start + size)`.
pub open spec fn split_at(start: int, size: int, align: int, first: int) -> (int, int, int) {
    let end = start + size;
    if size == 0 {
        (start, start, start)
    } else if first >= end {
        (start, end, end)
    } else {
        (start, first, end - (end - first) % align)
    }
}

/// The cut points of `[start, start + size)` at multiples of `align`: the
/// middle part runs from `start` rounded up to the end rounded down. Where no
/// multiple lies inside the span, all of it is the first part.
pub open spec fn align_to_spec(start: int, size: int, align: int) -> (int, int, int) {
    let end = start + size;
    if size == 0 {
        (start, start, start)
    } else if ceil_to(start, align) >= end {
        (start, end, end)
    } else {
        (start, ceil_to(start, align), floor_to(end, align))
    }
}

/// `floor_to` gives a multiple of `align`, less than `align` below `x`.
pub proof fn lemma_floor_to(x: int, align: int)
    requires
        align > 0,
    ensures
        floor_to(x, align) % align == 0,
        floor_to(x, align) <= x < floor_to(x, align) + align,
        floor_to(x, align) == align * (x / align),
{
    lemma_fundamental_div_mod(x, align);
    lemma_mod_bound(x, align);
    lemma_mul_is_commutative(align, x / align);
    lemma_fundamental_div_mod_converse(align * (x / align), align, x / align, 0);
}

/// `ceil_to` gives a multiple of `align`, less than `align` above `x`.
pub proof fn lemma_ceil_to(x: int, align: int)
    requires
        align > 0,
    ensures
        ceil_to(x, align) % align == 0,
        x <= ceil_to(x, align) < x + align,
{
    lemma_floor_to(x + align - 1, align);
}

/// A multiple of `align` that lies less than `align` below `x` is
/// `floor_to(x, align)`.
pub proof fn lemma_floor_to_unique(x: int, align: int, y: int)
    requires
        align > 0,
        y % align == 0,
        y <= x < y + align,
    ensures
        y == floor_to(x, align),
{
    lemma_fundamental_div_mod(y, align);
    lemma_mul_is_commutative(align, y / align);
    lemma_fundamental_div_mod_converse(x, align, y / align, x - y);
}

/// A multiple of `align` that lies less than `align` above `x` is
/// `ceil_to(x, align)`.
pub proof fn lemma_ceil_to_unique(x: int, align: int, y: int)
    requires
        align > 0,
        y % align == 0,
        x <= y < x + align,
    ensures
        y == ceil_to(x, align),
{
    lemma_floor_to_unique(x + align - 1, align, y);
}

/// Rounding a multiple of `align` changes nothing.
pub proof fn lemma_aligned_fixed(x: int, align: int)
    requires
        align > 0,
        x % align == 0,
    ensures
        floor_to(x, align) == x,
        ceil_to(x, align) == x,
{
    lemma_ceil_to_unique(x, align, x);
}

/// Adding a multiple of `align` to a multiple of `align` gives one.
pub proof fn lemma_aligned_sum(x: int, y: int, align: int)
    requires
        align > 0,
        x % align == 0,
        y % align == 0,
    ensures
        (x + y) % align == 0,
        (x - y) % align == 0,
{
    lemma_fundamental_div_mod(x, align);
    lemma_fundamental_div_mod(y, align);
    assert(x + y == (x / align + y / align) * align + 0) by (nonlinear_arith)
        requires
            x == align * (x / align),
            y == align * (y / align),
    ;
    assert(x - y == (x / align - y / align) * align + 0) by (nonlinear_arith)
        requires
            x == align * (x / align),
            y == align * (y / align),
    ;
    lemma_fundamental_div_mod_converse(x + y, align, x / align + y / align, 0);
    lemma_fundamental_div_mod_converse(x - y, align, x / align - y / align, 0);
}

/// Two multiples of `align` that differ are at least `align` apart.
pub proof fn lemma_multiples_apart(x: int, y: int, align: int)
    requires
        align > 0,
        x % align == 0,
        y % align == 0,
        x < y,
    ensures
        x + align <= y,
{
    lemma_aligned_sum(y, x, align);
    lemma_fundamental_div_mod(y - x, align);
    let q = (y - x) / align;
    assert(q >= 1) by (nonlinear_arith)
        requires
            y - x == align * q,
            y - x > 0,
            align > 0,
    ;
    assert(y - x >= align) by (nonlinear_arith)
        requires
            y - x == align * q,
            q >= 1,
            align > 0,
    ;
}

/// Where `start + align - 1` does not fit in 64 bits, neither does `start`
/// rounded up to `align`.
pub proof fn lemma_ceil_overflows(start: u64, align: u64)
    requires
        is_pow2(align as int),
        start + align - 1 > u64::MAX,
    ensures
        ceil_to(start as int, align as int) > u64::MAX,
{
    let top: u64 = 0x8000_0000_0000_0000;
    assert(top & ((top - 1) as u64) == 0) by (bit_vector)
        requires
            top == 0x8000_0000_0000_0000u64,
    ;
    lemma_one_bit_is_pow2(top);
    lemma_one_bit_is_pow2(align);
    assert(align <= top) by {
        let n = lemma_pow2_exponent(align);
        lemma2_to64();
        vstd::arithmetic::power2::lemma2_to64_rest();
        if n < 63 {
            lemma_pow2_strictly_increases(n, 63);
        }
    }
    let whole: int = 0x1_0000_0000_0000_0000;
    assert(whole % (top as int) == 0);
    lemma_aligned_to_smaller(whole, top, align);
    lemma_ceil_to(start as int, align as int);
    let c = ceil_to(start as int, align as int);
    if c <= u64::MAX {
        lemma_multiples_apart(c, whole, align as int);
    }
}

/// A multiple of a power of two is a multiple of every smaller power of two.
pub proof fn lemma_aligned_to_smaller(x: int, big: u64, small: u64)
    requires
        is_pow2(big as int),
        is_pow2(small as int),
        small <= big,
        x % (big as int) == 0,
    ensures
        x % (small as int) == 0,
{
    let n = lemma_pow2_exponent(big);
    let m = lemma_pow2_exponent(small);
    lemma_pow2_pos(n);
    lemma_pow2_pos(m);
    if m > n {
        lemma_pow2_strictly_increases(n, m);
    }
    vstd::arithmetic::power2::lemma_pow2_adds(m, (n - m) as nat);
    let k = pow2((n - m) as nat) as int;
    let s = small as int;
    let b = big as int;
    lemma_fundamental_div_mod(x, b);
    assert(x == (x / b * k) * s + 0) by (nonlinear_arith)
        requires
            x == b * (x / b),
            b == s * k,
    ;
    lemma_fundamental_div_mod_converse(x, s, x / b * k, 0);
}

/// A power of two that fits in 64 bits is `pow2(n)` for some `n` below 64.
pub proof fn lemma_pow2_exponent(align: u64) -> (n: nat)
    requires
        is_pow2(align as int),
    ensures
        n < 64,
        align == pow2(n),
{
    is_pow2_equiv(align as int);
    let n = choose|i: nat| vstd::arithmetic::power::pow(2, i) == align as int;
    lemma2_to64();
    if n > 64 {
        lemma_pow2_strictly_increases(64, n);
    }
    n
}

/// For a power of two, the mask and the arithmetic agree.
pub proof fn lemma_mask_down_is_floor(addr: u64, align: u64)
    requires
        is_pow2(align as int),
    ensures
        mask_down(addr, align) == floor_to(addr as int, align as int),
{
    let n = lemma_pow2_exponent(align);
    lemma_pow2_pos(n);
    lemma_u64_low_bits_mask_is_mod(addr, n);
    let m = (align - 1) as u64;
    assert(m == low_bits_mask(n) as u64);
    assert(addr & !m == addr - (addr & m)) by (bit_vector);
}

/// Clearing the bits of `m` takes away at most `m`.
proof fn lemma_mask_bounds(y: u64, m: u64)
    ensures
        y & !m <= y,
        y - m <= y & !m,
{
    assert(y & !m <= y) by (bit_vector);
    assert(y & !m == y - (y & m)) by (bit_vector);
    assert(y & m <= m) by (bit_vector);
}

/// Rounding up with a mask adds less than `align`.
pub proof fn lemma_mask_up_bound(addr: u64, align: u64)
    requires
        align > 0,
        addr + align - 1 <= u64::MAX,
    ensures
        addr <= mask_up(addr, align) <= addr + align - 1,
{
    lemma_mask_bounds((addr + align - 1) as u64, (align - 1) as u64);
}

/// Whether a machine word is a power of two, in the terms of the hardware:
/// exactly one bit is set.
pub fn is_power_of_two(x: u64) -> (r: bool)
    ensures
        r == is_pow2(x as int),
{
    proof {
        lemma_one_bit_is_pow2(x);
    }
    x != 0 && x & (x - 1) == 0
}

/// A word is a power of two exactly when one bit of it is set.
pub proof fn lemma_one_bit_is_pow2(x: u64)
    ensures
        is_pow2(x as int) <==> (x != 0 && x & ((x - 1) as u64) == 0),
    decreases x,
{
    reveal(is_pow2);
    if x == 0 {
    } else if x == 1 {
        assert(1u64 & 0u64 == 0) by (bit_vector);
    } else {
        let h: u64 = x / 2;
        lemma_one_bit_is_pow2(h);
        assert(x > 1 && x & ((x - 1) as u64) == 0 ==> x % 2 == 0 && (x / 2) & ((x / 2 - 1) as u64)
            == 0) by (bit_vector);
        assert(x > 1 && x % 2 == 0 && (x / 2) & ((x / 2 - 1) as u64) == 0 ==> x & ((x - 1) as u64)
            == 0) by (bit_vector);
    }
}

/// An address that can be rounded to an alignment boundary.
pub trait Addr: Sized {
    /// The address as a number.
    spec fn value(self) -> u64;

    /// The greatest address not above `self` that is aligned on `align`.
    fn align_down(self, align: u64) -> (r: Self)
        requires
            align > 0,
        ensures
            r.value() == mask_down(self.value(), align),
            r.value() <= self.value(),
            is_pow2(align as int) ==> r.value() == floor_to(self.value() as int, align as int),
    ;

    /// The least address not below `self` that is aligned on `align`.
    fn align_up(self, align: u64) -> (r: Self)
        requires
            align > 0,
            self.value() + align - 1 <= u64::MAX,
        ensures
            r.value() == mask_up(self.value(), align),
            self.value() <= r.value(),
            is_pow2(align as int) ==> r.value() == ceil_to(self.value() as int, align as int),
    ;

    /// As `align_up`, but `None` where the rounded address does not fit in
    /// 64 bits, or `align` is zero.
    fn checked_align_up(self, align: u64) -> (r: Option<Self>)
        ensures
            r is Some <==> align > 0 && self.value() + align - 1 <= u64::MAX,
            r matches Some(a) ==> {
                &&& a.value() == mask_up(self.value(), align)
                &&& self.value() <= a.value()
                &&& is_pow2(align as int) ==> a.value() == ceil_to(
                    self.value() as int,
                    align as int,
                )
            },
    ;

    /// Cuts the `size` bytes that start at `self` at alignment boundaries,
    /// as `slice::align_to` does for a slice: an unaligned head, an aligned
    /// middle whose length is a multiple of `align`, and an unaligned tail.
    /// Returned are the start of each part; the tail ends at `self + size`.
    fn align_to(self, size: u64, align: u64) -> (r: (Self, Self, Self))
        requires
            size > 0 ==> align > 0,
            size > 0 ==> self.value() + align - 1 <= u64::MAX,
            size > 0 ==> self.value() + size <= u64::MAX,
        ensures
            (r.0.value() as int, r.1.value() as int, r.2.value() as int) == split_at(
                self.value() as int,
                size as int,
                align as int,
                mask_up(self.value(), align) as int,
            ),
            self.value() == r.0.value() <= r.1.value() <= r.2.value() <= self.value() + size,
            is_pow2(align as int) ==> (r.0.value() as int, r.1.value() as int, r.2.value() as int)
                == align_to_spec(self.value() as int, size as int, align as int),
    ;
}

impl Addr for u64 {
    open spec fn value(self) -> u64 {
        self
    }

    fn align_down(self, align: u64) -> (r: u64) {
        proof {
            lemma_mask_bounds(self, (align - 1) as u64);
            if is_pow2(align as int) {
                lemma_mask_down_is_floor(self, align);
            }
        }
        self & !(align - 1)
    }

    fn align_up(self, align: u64) -> (r: u64) {
        proof {
            lemma_mask_bounds((self + align - 1) as u64, (align - 1) as u64);
            if is_pow2(align as int) {
                lemma_mask_down_is_floor((self + align - 1) as u64, align);
            }
        }
        (self + (align - 1)) & !(align - 1)
    }

    fn checked_align_up(self, align: u64) -> (r: Option<u64>) {
        if align == 0 {
            return None;
        }
        match self.checked_add(align - 1) {
            Some(_) => Some(self.align_up(align)),
            None => None,
        }
    }

    fn align_to(self, size: u64, align: u64) -> (r: (u64, u64, u64)) {
        let start = self;
        if size == 0 {
            return (start, start, start);
        }
        let aligned = start.align_up(align);
        let end = start + size;
        if aligned >= end {
            return (start, end, end);
        }
        let trail = (end - aligned) % align;
        proof {
            lemma_mod_bound(end - aligned, align as int);
            lemma_fundamental_div_mod(end - aligned, align as int);
            if is_pow2(align as int) {
                lemma_ceil_to(start as int, align as int);
                lemma_fundamental_div_mod_converse(
                    end - trail - aligned,
                    align as int,
                    (end - aligned) / (align as int),
                    0,
                );
                lemma_aligned_sum(end - trail - aligned, aligned as int, align as int);
                lemma_floor_to_unique(end as int, align as int, end - trail);
            }
        }
        (start, aligned, end - trail)
    }
}

/// A range of addresses that can be cut at alignment boundaries.
pub trait AddrRange: Sized {
    /// The first address of the range, and the first one after it.
    spec fn bounds(self) -> (u64, u64);

    /// Cuts the range at the multiples of `align`, as `Addr::align_to` does:
    /// the head, the aligned middle and the tail, which together make up the
    /// range.
    fn align_to(self, align: u64) -> (r: (Self, Self, Self))
        requires
            self.bounds().0 <= self.bounds().1,
            self.bounds().0 < self.bounds().1 ==> align > 0,
            self.bounds().0 < self.bounds().1 ==> self.bounds().0 + align - 1 <= u64::MAX,
        ensures
            ({
                let (start, end) = self.bounds();
                let cut = split_at(
                    start as int,
                    end - start,
                    align as int,
                    mask_up(start, align) as int,
                );
                &&& r.0.bounds() == (start, r.1.bounds().0)
                &&& r.1.bounds() == (r.1.bounds().0, r.2.bounds().0)
                &&& r.2.bounds() == (r.2.bounds().0, end)
                &&& r.1.bounds().0 == cut.1
                &&& r.2.bounds().0 == cut.2
                &&& start <= cut.1 <= cut.2 <= end
                &&& is_pow2(align as int) ==> cut == align_to_spec(
                    start as int,
                    end - start,
                    align as int,
                )
            }),
    ;
}

impl AddrRange for Range<u64> {
    open spec fn bounds(self) -> (u64, u64) {
        (self.start, self.end)
    }

    fn align_to(self, align: u64) -> (r: (Self, Self, Self)) {
        let size = self.end - self.start;
        let (s, a, e) = self.start.align_to(size, align);
        (Range { start: s, end: a }, Range { start: a, end: e }, Range { start: e, end: self.end })
    }
}

} // verus!
