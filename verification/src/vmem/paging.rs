//! Pages of virtual memory and frames of physical memory, in the two sizes
//! the kernel maps, as plain addresses.
//!
//! The `x86_64` crate decides what a frame start and a page start are. Its
//! frame and page types are opaque to the verifier, so the addresses are
//! carried as `u64` and the crate is asked through the trusted functions at
//! the end of this file.

use vstd::prelude::*;
use x86_64::structures::paging::Page;
use x86_64::structures::paging::PhysFrame;
use x86_64::structures::paging::Size2MiB;
use x86_64::structures::paging::Size4KiB;
use x86_64::PhysAddr;
use x86_64::VirtAddr;
use crate::addr::floor_to;

verus! {

/// The size of a small page or frame, in bytes.
pub const PAGE_SIZE: u64 = 0x1000;

/// The size of a large page or frame, in bytes.
pub const LPAGE_SIZE: u64 = 0x20_0000;

/// The first number that is no physical address: physical addresses have 52
/// bits.
pub const PHYS_LIMIT: u64 = 0x10_0000_0000_0000;

/// The first address above the lower half of the virtual address space.
pub const LOWER_HALF_END: u64 = 0x8000_0000_0000;

/// The first address of the upper half of the virtual address space.
pub const UPPER_HALF_START: u64 = 0xffff_8000_0000_0000;

/// The two sizes of pages and frames that the kernel uses.
#[derive(Clone, Copy, Debug, PartialEq, Eq, Structural)]
pub enum FrameSize {
    /// 4 KiB.
    Small,
    /// 2 MiB.
    Large,
}

impl FrameSize {
    /// The size in bytes.
    pub open spec fn spec_bytes(self) -> u64 {
        match self {
            FrameSize::Small => PAGE_SIZE,
            FrameSize::Large => LPAGE_SIZE,
        }
    }

    /// The size in bytes.
    #[verifier::when_used_as_spec(spec_bytes)]
    pub fn bytes(self) -> (r: u64)
        ensures
            r == self.spec_bytes(),
    {
        match self {
            FrameSize::Small => PAGE_SIZE,
            FrameSize::Large => LPAGE_SIZE,
        }
    }
}

/// A frame of physical memory: `size.bytes()` bytes from `start`.
#[derive(Clone, Copy, Debug, PartialEq, Eq, Structural)]
pub struct Frame {
    pub start: u64,
    pub size: FrameSize,
}

impl Frame {
    /// A frame starts at a physical address that is a multiple of its size.
    pub open spec fn wf(self) -> bool {
        &&& self.start < PHYS_LIMIT
        &&& self.start % self.size.bytes() == 0
    }

    /// The first address after the frame.
    pub open spec fn end(self) -> int {
        self.start + self.size.bytes()
    }
}

/// The frame that starts at `addr`, if one of that size does.
pub open spec fn frame_at(addr: u64, size: FrameSize) -> Option<Frame> {
    if addr < PHYS_LIMIT && addr % size.bytes() == 0 {
        Some(Frame { start: addr, size })
    } else {
        None
    }
}

/// Whether `addr` is a canonical virtual address: bits 47 to 63 are equal.
pub open spec fn is_canonical(addr: u64) -> bool {
    addr < LOWER_HALF_END || addr >= UPPER_HALF_START
}

/// Whether `addr` is a canonical virtual address.
pub fn canonical(addr: u64) -> (r: bool)
    ensures
        r == is_canonical(addr),
{
    addr < LOWER_HALF_END || addr >= UPPER_HALF_START
}

/// The start of the page of the given size that holds `addr`.
pub fn page_containing(addr: u64, size: FrameSize) -> (r: u64)
    requires
        is_canonical(addr),
    ensures
        r == floor_to(addr as int, size.bytes() as int),
        is_canonical(r),
{
    proof {
        lemma_floor_canonical(addr, size);
    }
    match size {
        FrameSize::Small => small_page_containing(addr),
        FrameSize::Large => large_page_containing(addr),
    }
}

/// Rounding a canonical address down to a page start gives a canonical
/// address: both halves of the address space start at page boundaries.
pub proof fn lemma_floor_canonical(addr: u64, size: FrameSize)
    requires
        is_canonical(addr),
    ensures
        0 <= floor_to(addr as int, size.bytes() as int) <= addr,
        is_canonical(floor_to(addr as int, size.bytes() as int) as u64),
{
    let bytes = size.bytes() as int;
    crate::addr::lemma_floor_to(addr as int, bytes);
    lemma_floor_monotone(0, addr as int, bytes);
    if addr >= UPPER_HALF_START {
        lemma_floor_monotone(UPPER_HALF_START as int, addr as int, bytes);
        assert(UPPER_HALF_START as int % bytes == 0);
        crate::addr::lemma_aligned_fixed(UPPER_HALF_START as int, bytes);
    }
}

/// Rounding down keeps the order.
pub proof fn lemma_floor_monotone(x: int, y: int, align: int)
    requires
        align > 0,
        x <= y,
    ensures
        floor_to(x, align) <= floor_to(y, align),
{
    crate::addr::lemma_floor_to(x, align);
    crate::addr::lemma_floor_to(y, align);
    let fx = floor_to(x, align);
    let fy = floor_to(y, align);
    if fy < fx {
        crate::addr::lemma_multiples_apart(fy, fx, align);
    }
}

/// The pages of one size from `start` up to, not including, `end`.
#[derive(Clone, Copy, Debug, PartialEq, Eq, Structural)]
pub struct PageRange {
    pub start: u64,
    pub end: u64,
    pub size: FrameSize,
}

impl PageRange {
    /// The page starts that the range still holds, in order: `start`,
    /// `start + size` and so on, below `end`.
    pub open spec fn pages(self) -> Seq<u64>
        decreases
                (if self.start < self.end {
                    self.end - self.start
                } else {
                    0
                }),
    {
        if self.start < self.end {
            seq![self.start] + self.rest().pages()
        } else {
            Seq::empty()
        }
    }

    /// The range without its first page. Where the next page start would not
    /// fit in 64 bits the rest is empty.
    pub open spec fn rest(self) -> PageRange {
        if self.start < self.end {
            PageRange {
                start: if self.start + self.size.bytes() <= u64::MAX {
                    (self.start + self.size.bytes()) as u64
                } else {
                    self.end
                },
                end: self.end,
                size: self.size,
            }
        } else {
            self
        }
    }

    /// The pages of the range with their size.
    pub open spec fn sized_pages(self) -> Seq<(u64, FrameSize)> {
        Seq::new(self.pages().len(), |i: int| (self.pages()[i], self.size))
    }

    /// Whether the range is cut at page boundaries: it runs from one page
    /// start to another.
    pub open spec fn on_grid(self) -> bool {
        &&& self.start <= self.end
        &&& self.start % self.size.bytes() == 0
        &&& self.end % self.size.bytes() == 0
    }

    /// The pages of a range on the grid: one every `size` bytes.
    pub proof fn lemma_pages(self)
        requires
            self.on_grid(),
        ensures
            self.pages().len() * self.size.bytes() == self.end - self.start,
            forall|i: int|
                0 <= i < self.pages().len() ==> #[trigger] self.pages()[i] == self.start + i
                    * self.size.bytes(),
        decreases self.end - self.start,
    {
        let bytes = self.size.bytes() as int;
        if self.start < self.end {
            crate::addr::lemma_multiples_apart(self.start as int, self.end as int, bytes);
            vstd::arithmetic::div_mod::lemma_mod_self_0(bytes);
            crate::addr::lemma_aligned_sum(self.start as int, bytes, bytes);
            let rest = self.rest();
            rest.lemma_pages();
            assert(self.pages() =~= seq![self.start] + rest.pages());
            let n = rest.pages().len() as int;
            assert((n + 1) * bytes == n * bytes + bytes) by (nonlinear_arith);
            assert forall|i: int| 0 <= i < self.pages().len() implies #[trigger] self.pages()[i]
                == self.start + i * bytes by {
                if i > 0 {
                    assert(self.pages()[i] == rest.pages()[i - 1]);
                    assert((i - 1) * bytes + bytes == i * bytes) by (nonlinear_arith);
                }
            }
        } else {
            assert(self.pages().len() == 0);
        }
    }

    /// Whether the address lies in the range.
    pub open spec fn holds(self, addr: int) -> bool {
        self.start <= addr < self.end
    }

    /// Every address of a range on the grid lies in one page of the range,
    /// and in one only.
    pub proof fn lemma_page_of(self, addr: int) -> (i: int)
        requires
            self.on_grid(),
            self.holds(addr),
        ensures
            0 <= i < self.pages().len(),
            self.pages()[i] <= addr < self.pages()[i] + self.size.bytes(),
            forall|j: int|
                0 <= j < self.pages().len() && #[trigger] self.pages()[j] <= addr < self.pages()[j]
                    + self.size.bytes() ==> j == i,
    {
        let bytes = self.size.bytes() as int;
        self.lemma_pages();
        let i = (addr - self.start) / bytes;
        vstd::arithmetic::div_mod::lemma_fundamental_div_mod(addr - self.start, bytes);
        vstd::arithmetic::div_mod::lemma_mod_bound(addr - self.start, bytes);
        vstd::arithmetic::mul::lemma_mul_is_commutative(i, bytes);
        let n = self.pages().len() as int;
        assert(0 <= i < n) by (nonlinear_arith)
            requires
                bytes > 0,
                n * bytes == self.end - self.start,
                0 <= i * bytes <= addr - self.start < self.end - self.start,
        ;
        assert forall|j: int|
            0 <= j < self.pages().len() && #[trigger] self.pages()[j] <= addr < self.pages()[j]
                + bytes implies j == i by {
            assert(self.pages()[j] == self.start + j * bytes);
            assert(j == i) by (nonlinear_arith)
                requires
                    bytes > 0,
                    j * bytes <= addr - self.start < j * bytes + bytes,
                    i * bytes <= addr - self.start < i * bytes + bytes,
            ;
        }
        i
    }

    /// Whether no page is left.
    pub fn is_empty(&self) -> (r: bool)
        ensures
            r == (self.pages().len() == 0),
    {
        self.start >= self.end
    }

    /// Takes the first page off the range.
    pub fn next(&mut self) -> (r: Option<u64>)
        ensures
            old(self).pages().len() == 0 ==> r is None && *final(self) == *old(self),
            old(self).pages().len() > 0 ==> r == Some(old(self).pages()[0]) && final(self).pages()
                == old(self).pages().skip(1) && *final(self) == old(self).rest(),
    {
        if self.start < self.end {
            let page = self.start;
            self.start = match page.checked_add(self.size.bytes()) {
                Some(next) => next,
                None => self.end,
            };
            proof {
                assert(old(self).pages() =~= seq![page] + self.pages());
                assert(self.pages() =~= old(self).pages().skip(1));
            }
            Some(page)
        } else {
            None
        }
    }
}

/// Where a small frame starts at the physical address `addr`, its start.
///
/// Calls `PhysFrame::<Size4KiB>::from_start_address` of `x86_64`. Trusted:
/// that it accepts exactly the multiples of 4096 and hands back the frame
/// that starts at the address given. `PhysAddr::new` panics on a number of
/// more than 52 bits, which the precondition leaves out.
#[verifier::external_body]
fn small_frame_start(addr: u64) -> (r: Option<u64>)
    requires
        addr < PHYS_LIMIT,
    ensures
        r == (if addr % PAGE_SIZE == 0 {
            Some(addr)
        } else {
            None
        }),
{
    match PhysFrame::<Size4KiB>::from_start_address(PhysAddr::new(addr)) {
        Ok(frame) => Some(frame.start_address().as_u64()),
        Err(_) => None,
    }
}

/// Where a large frame starts at the physical address `addr`, its start.
///
/// Calls `PhysFrame::<Size2MiB>::from_start_address` of `x86_64`. Trusted:
/// that it accepts exactly the multiples of 2 MiB and hands back the frame
/// that starts at the address given. `PhysAddr::new` panics on a number of
/// more than 52 bits, which the precondition leaves out.
#[verifier::external_body]
fn large_frame_start(addr: u64) -> (r: Option<u64>)
    requires
        addr < PHYS_LIMIT,
    ensures
        r == (if addr % LPAGE_SIZE == 0 {
            Some(addr)
        } else {
            None
        }),
{
    match PhysFrame::<Size2MiB>::from_start_address(PhysAddr::new(addr)) {
        Ok(frame) => Some(frame.start_address().as_u64()),
        Err(_) => None,
    }
}

/// The start of the small frame that holds the physical address `addr`.
///
/// Calls `PhysFrame::<Size4KiB>::containing_address` of `x86_64`. Trusted:
/// that it rounds the address down to a multiple of 4096. `PhysAddr::new`
/// panics on a number of more than 52 bits, which the precondition leaves
/// out.
#[verifier::external_body]
fn small_frame_containing(addr: u64) -> (r: u64)
    requires
        addr < PHYS_LIMIT,
    ensures
        r == floor_to(addr as int, PAGE_SIZE as int),
{
    PhysFrame::<Size4KiB>::containing_address(PhysAddr::new(addr)).start_address().as_u64()
}

/// The start of the small page that holds the virtual address `addr`.
///
/// Calls `Page::<Size4KiB>::containing_address` of `x86_64`. Trusted: that
/// it rounds the address down to a multiple of 4096. `VirtAddr::new` panics
/// on some addresses that are not canonical and changes others, which the
/// precondition leaves out.
#[verifier::external_body]
fn small_page_containing(addr: u64) -> (r: u64)
    requires
        is_canonical(addr),
    ensures
        r == floor_to(addr as int, PAGE_SIZE as int),
{
    Page::<Size4KiB>::containing_address(VirtAddr::new(addr)).start_address().as_u64()
}

/// The start of the large page that holds the virtual address `addr`.
///
/// Calls `Page::<Size2MiB>::containing_address` of `x86_64`. Trusted: that
/// it rounds the address down to a multiple of 2 MiB. `VirtAddr::new` panics
/// on some addresses that are not canonical and changes others, which the
/// precondition leaves out.
#[verifier::external_body]
fn large_page_containing(addr: u64) -> (r: u64)
    requires
        is_canonical(addr),
    ensures
        r == floor_to(addr as int, LPAGE_SIZE as int),
{
    Page::<Size2MiB>::containing_address(VirtAddr::new(addr)).start_address().as_u64()
}

/// The small frame that holds the physical address `addr`.
pub fn frame_containing(addr: u64) -> (r: Frame)
    requires
        addr < PHYS_LIMIT,
    ensures
        r.start == floor_to(addr as int, PAGE_SIZE as int),
        r.size == FrameSize::Small,
        r.wf(),
{
    proof {
        crate::addr::lemma_floor_to(addr as int, PAGE_SIZE as int);
    }
    Frame { start: small_frame_containing(addr), size: FrameSize::Small }
}

/// The frame of the given size that starts at `addr`; `None` where `addr` is
/// no physical address or no multiple of the size.
pub fn frame_starting_at(addr: u64, size: FrameSize) -> (r: Option<Frame>)
    ensures
        r == frame_at(addr, size),
        r matches Some(f) ==> f.wf(),
{
    if addr >= PHYS_LIMIT {
        return None;
    }
    let start = match size {
        FrameSize::Small => small_frame_start(addr),
        FrameSize::Large => large_frame_start(addr),
    };
    match start {
        Some(start) => Some(Frame { start, size }),
        None => None,
    }
}

} // verus!
