//! The kernel's two heaps, side by side in virtual memory, and their
//! bring-up.
//!
//! The eternal heap comes first and the kernel heap follows it without a
//! gap, so that both are mapped as one span. The span is mapped with large
//! pages where it is aligned for them, and with small pages before and
//! after.
//!
//! Mapping a page changes the page tables, which this library does not
//! touch. `HeapInit` decides which page is mapped to which frame, and its
//! caller maps it and reports back.

pub mod bootstrap_frames;
pub mod eternal;
pub mod ffallocator;
pub mod history;

use vstd::prelude::*;
use crate::addr::Addr;
use crate::heap::bootstrap_frames::as_small_page_error;
use crate::heap::bootstrap_frames::map_page_err;
use crate::heap::bootstrap_frames::page_range;
use crate::heap::bootstrap_frames::BootstrapFramesAlloc;
use crate::heap::bootstrap_frames::MapToError;
use crate::heap::eternal::EternalAlloc;
use crate::heap::eternal::MAX_ALLOC_SIZE;
use crate::heap::ffallocator::block;
use crate::heap::ffallocator::FFAlloc;
use crate::units::KiB;
use crate::units::MiB;
use crate::vmem::paging::Frame;
use crate::vmem::paging::FrameSize;
use crate::vmem::paging::PageRange;
use crate::vmem::paging::LOWER_HALF_END;
use crate::vmem::paging::LPAGE_SIZE;
use crate::vmem::paging::PAGE_SIZE;
use crate::vmem::paging::UPPER_HALF_START;

verus! {

/// Addresses that start with `0x69f` are in the kernel heap.
pub const KERNEL_HEAP_START: u64 = 0x0069_f000_0000;

pub const KERNEL_HEAP_SIZE: u64 = (2 * MiB) + (4 * KiB);

pub const KERNEL_HEAP_END: u64 = KERNEL_HEAP_START + KERNEL_HEAP_SIZE;

/// Addresses that start with `0x69e` are in the eternal heap.
pub const ETERNAL_HEAP_START: u64 = KERNEL_HEAP_START - ETERNAL_HEAP_SIZE;

pub const ETERNAL_HEAP_SIZE: u64 = 512 * KiB;

pub const ETERNAL_HEAP_END: u64 = ETERNAL_HEAP_START + ETERNAL_HEAP_SIZE;

pub const TOTAL_HEAP_START: u64 = ETERNAL_HEAP_START;

pub const TOTAL_HEAP_SIZE: u64 = KERNEL_HEAP_SIZE + ETERNAL_HEAP_SIZE;

pub const TOTAL_HEAP_END: u64 = KERNEL_HEAP_END;

/// The two heaps are contiguous, and the whole span is the sum of both.
pub proof fn lemma_heaps_contiguous()
    ensures
        ETERNAL_HEAP_END == KERNEL_HEAP_START,
        TOTAL_HEAP_START + TOTAL_HEAP_SIZE == TOTAL_HEAP_END,
{
}

/// How a page is to be mapped.
#[derive(Clone, Copy, Debug, PartialEq, Eq, Structural)]
pub struct PageFlags {
    pub present: bool,
    pub writable: bool,
    pub huge_page: bool,
}

/// The flags of a heap page of the given size: present and writable, and a
/// huge page where it is large.
pub open spec fn heap_flags(size: FrameSize) -> PageFlags {
    PageFlags { present: true, writable: true, huge_page: size == FrameSize::Large }
}

/// What the caller of `HeapInit::step` reports.
#[derive(Clone, Copy, Debug, PartialEq, Eq, Structural)]
pub enum Event {
    /// Nothing yet: the bring-up begins.
    Begin,
    /// The mapping that the last step asked for is made.
    Mapped,
    /// The mapping that the last step asked for failed.
    MapFailed(MapToError),
}

/// What the caller of `HeapInit::step` is to do.
#[derive(Clone, Copy, Debug, PartialEq, Eq, Structural)]
pub enum Action {
    /// Map `page` to `frame` with `flags`, flush the page from the
    /// translation cache, and report how it went.
    MapPage { page: u64, frame: Frame, flags: PageFlags },
    /// Stop: the span is mapped.
    Done,
    /// Stop: the bring-up has failed.
    Failed(MapToError),
}

/// The bring-up of the heaps: the pages that are still to be mapped.
#[derive(Clone, Copy, Debug)]
pub struct HeapInit {
    /// The small pages before the large ones, the small pages after them,
    /// and the large pages, in the order in which they are mapped.
    ranges: [PageRange; 3],
    /// The size of the page that the last step asked to map.
    mapping: Option<FrameSize>,
}

/// The allocator after a frame of the given size was asked of it, and the
/// frame.
pub open spec fn popped(frames: BootstrapFramesAlloc, size: FrameSize) -> (
    BootstrapFramesAlloc,
    Option<Frame>,
) {
    match size {
        FrameSize::Small => frames.after_pop_region(),
        FrameSize::Large => frames.after_pop_large(),
    }
}

/// What a step of the bring-up does, given the pages still to be mapped
/// and the size of the page whose mapping is reported: the action, the pages
/// left, the size of the page that the action maps, and the frame allocator
/// afterwards.
///
/// A mapping that failed ends the bring-up with its error; the error of a
/// large page is given as one of small pages. Else the next page is mapped to
/// a frame of its size from the allocator, and without a frame the bring-up
/// ends with `FrameAllocationFailed`. When no page is left the bring-up ends
/// well.
pub open spec fn after_step(
    pending: Seq<(u64, FrameSize)>,
    mapping: Option<FrameSize>,
    frames: BootstrapFramesAlloc,
    event: Event,
) -> (Action, Seq<(u64, FrameSize)>, Option<FrameSize>, BootstrapFramesAlloc) {
    if let Event::MapFailed(e) = event {
        (
            Action::Failed(
                if mapping == Some(FrameSize::Large) {
                    as_small_page_error(e)
                } else {
                    e
                },
            ),
            pending,
            None,
            frames,
        )
    } else if pending.len() == 0 {
        (Action::Done, pending, None, frames)
    } else {
        let (page, size) = pending[0];
        match popped(frames, size).1 {
            Some(frame) => (
                Action::MapPage { page, frame, flags: heap_flags(size) },
                pending.skip(1),
                Some(size),
                popped(frames, size).0,
            ),
            None => (
                Action::Failed(MapToError::FrameAllocationFailed),
                pending,
                None,
                popped(frames, size).0,
            ),
        }
    }
}

/// Whether the span from `start` to `end` lies in one half of the virtual
/// address space, so that `end` and every address of the span is canonical.
pub open spec fn in_one_half(start: u64, end: int) -> bool {
    start <= end && (end < LOWER_HALF_END || (start >= UPPER_HALF_START && end <= u64::MAX))
}

/// The three ranges of pages that map the span of `size` bytes at `start`:
/// small pages up to the first large-page boundary, small pages from the
/// last large-page boundary on, and large pages between the two.
pub open spec fn heap_ranges(start: u64, size: u64) -> (PageRange, PageRange, PageRange) {
    let cut = crate::addr::align_to_spec(start as int, size as int, LPAGE_SIZE as int);
    let end = start + size;
    (
        PageRange {
            start: crate::addr::floor_to(cut.0, PAGE_SIZE as int) as u64,
            end: crate::addr::floor_to(cut.1, PAGE_SIZE as int) as u64,
            size: FrameSize::Small,
        },
        PageRange {
            start: crate::addr::floor_to(cut.2, PAGE_SIZE as int) as u64,
            end: crate::addr::floor_to(end, PAGE_SIZE as int) as u64,
            size: FrameSize::Small,
        },
        PageRange {
            start: crate::addr::floor_to(cut.1, LPAGE_SIZE as int) as u64,
            end: crate::addr::floor_to(cut.2, LPAGE_SIZE as int) as u64,
            size: FrameSize::Large,
        },
    )
}

/// The three ranges of pages tile the span: each runs from page start to
/// page start, and every address of the span lies in one of them, and in one
/// only. With `PageRange::lemma_page_of`, every address of the span is mapped
/// by one page.
pub proof fn lemma_heap_ranges_tile(start: u64, size: u64)
    requires
        in_one_half(start, start + size),
        start % PAGE_SIZE == 0,
        (start + size) % (PAGE_SIZE as int) == 0,
    ensures
        ({
            let (head, tail, middle) = heap_ranges(start, size);
            &&& head.on_grid()
            &&& tail.on_grid()
            &&& middle.on_grid()
            &&& forall|addr: int|
                start <= addr < start + size <==> #[trigger] head.holds(addr) || tail.holds(addr)
                    || middle.holds(addr)
            &&& forall|addr: int|
                !(#[trigger] head.holds(addr) && tail.holds(addr)) && !(head.holds(addr)
                    && middle.holds(addr)) && !(tail.holds(addr) && middle.holds(addr))
        }),
{
    let end = start + size;
    let small = PAGE_SIZE as int;
    let large = LPAGE_SIZE as int;
    let cut = crate::addr::align_to_spec(start as int, size as int, large);
    crate::heap::bootstrap_frames::lemma_large_page_is_pow2();
    crate::heap::bootstrap_frames::lemma_small_page_is_pow2();
    crate::addr::lemma_ceil_to(start as int, large);
    crate::addr::lemma_floor_to(end, large);
    crate::addr::lemma_aligned_fixed(start as int, small);
    crate::addr::lemma_aligned_fixed(end, small);
    crate::addr::lemma_floor_to(cut.1, large);
    crate::addr::lemma_floor_to(cut.2, large);
    if size > 0 && crate::addr::ceil_to(start as int, large) < end {
        let first = crate::addr::ceil_to(start as int, large);
        let last = crate::addr::floor_to(end, large);
        crate::addr::lemma_aligned_to_smaller(first, LPAGE_SIZE, PAGE_SIZE);
        crate::addr::lemma_aligned_to_smaller(last, LPAGE_SIZE, PAGE_SIZE);
        crate::addr::lemma_aligned_fixed(first, small);
        crate::addr::lemma_aligned_fixed(last, small);
        crate::addr::lemma_aligned_fixed(first, large);
        crate::addr::lemma_aligned_fixed(last, large);
        crate::vmem::paging::lemma_floor_monotone(first, end, large);
    }
}

impl HeapInit {
    /// The pages that are still to be mapped, with their sizes, in the order
    /// in which they are mapped.
    pub closed spec fn pending(self) -> Seq<(u64, FrameSize)> {
        self.ranges[0].sized_pages() + self.ranges[1].sized_pages() + self.ranges[2].sized_pages()
    }

    /// The size of the page that the last step asked to map, if it asked
    /// for one.
    pub closed spec fn mapping(self) -> Option<FrameSize> {
        self.mapping
    }

    /// The bring-up of the kernel's heaps: of the span from
    /// `TOTAL_HEAP_START` to `TOTAL_HEAP_END`.
    pub fn new() -> (r: Self)
        ensures
            r.mapping() is None,
            r.pending() == heap_ranges(TOTAL_HEAP_START, TOTAL_HEAP_SIZE).0.sized_pages()
                + heap_ranges(TOTAL_HEAP_START, TOTAL_HEAP_SIZE).1.sized_pages() + heap_ranges(
                TOTAL_HEAP_START,
                TOTAL_HEAP_SIZE,
            ).2.sized_pages(),
    {
        Self::over(TOTAL_HEAP_START, TOTAL_HEAP_SIZE)
    }

    /// The bring-up of a heap of `size` bytes at `start`.
    pub fn over(start: u64, size: u64) -> (r: Self)
        requires
            in_one_half(start, start + size),
        ensures
            r.mapping() is None,
            r.pending() == heap_ranges(start, size).0.sized_pages() + heap_ranges(
                start,
                size,
            ).1.sized_pages() + heap_ranges(start, size).2.sized_pages(),
    {
        proof {
            crate::heap::bootstrap_frames::lemma_large_page_is_pow2();
        }
        let end = start + size;
        if size > 0 && start > u64::MAX - (LPAGE_SIZE - 1) {
            // No large-page boundary lies above `start`: small pages map it all.
            proof {
                crate::addr::lemma_ceil_overflows(start, LPAGE_SIZE);
            }
            return HeapInit {
                ranges: [
                    page_range(start, end, FrameSize::Small),
                    page_range(end, end, FrameSize::Small),
                    page_range(end, end, FrameSize::Large),
                ],
                mapping: None,
            };
        }
        let (prefix, big_start, suffix) = start.align_to(size, LPAGE_SIZE);
        HeapInit {
            ranges: [
                page_range(prefix, big_start, FrameSize::Small),
                page_range(suffix, end, FrameSize::Small),
                page_range(big_start, suffix, FrameSize::Large),
            ],
            mapping: None,
        }
    }

    /// Whether every page has been asked for.
    pub fn is_done(&self) -> (r: bool)
        ensures
            r == (self.pending().len() == 0),
    {
        self.ranges[0].is_empty() && self.ranges[1].is_empty() && self.ranges[2].is_empty()
    }

    /// One step of the bring-up; see `after_step`.
    pub fn step(&mut self, frames: &mut BootstrapFramesAlloc, event: Event) -> (r: Action)
        ensures
            (r, final(self).pending(), final(self).mapping(), *final(frames)) == after_step(
                old(self).pending(),
                old(self).mapping(),
                *old(frames),
                event,
            ),
    {
        if let Event::MapFailed(e) = event {
            let was_large = match self.mapping {
                Some(FrameSize::Large) => true,
                _ => false,
            };
            self.mapping = None;
            proof {
                assert(self.ranges =~= old(self).ranges);
            }
            return Action::Failed(if was_large {
                map_page_err(e)
            } else {
                e
            });
        }
        self.mapping = None;
        proof {
            assert(self.ranges =~= old(self).ranges);
        }
        let k: usize = if !self.ranges[0].is_empty() {
            0
        } else if !self.ranges[1].is_empty() {
            1
        } else if !self.ranges[2].is_empty() {
            2
        } else {
            return Action::Done;
        };
        let mut range = self.ranges[k];
        let size = range.size;
        let frame = match size {
            FrameSize::Small => frames.pop_region(),
            FrameSize::Large => frames.pop_large(),
        };
        match frame {
            Some(frame) => {
                let ghost before = range;
                let page = range.next();
                self.ranges[k] = range;
                self.mapping = Some(size);
                proof {
                    assert(before.sized_pages().skip(1) =~= range.sized_pages());
                    assert(self.pending() =~= old(self).pending().skip(1));
                }
                Action::MapPage {
                    page: page.unwrap(),
                    frame,
                    flags: PageFlags {
                        present: true,
                        writable: true,
                        huge_page: match size {
                            FrameSize::Large => true,
                            FrameSize::Small => false,
                        },
                    },
                }
            },
            None => Action::Failed(MapToError::FrameAllocationFailed),
        }
    }
}

/// The kernel heap over its span, all of it free.
pub fn init_kernel_heap() -> (r: FFAlloc)
    ensures
        r.wf(),
        r.is_init(),
        r@ == seq![block(KERNEL_HEAP_START, KERNEL_HEAP_SIZE)],
        r.heap_start() == KERNEL_HEAP_START,
        r.heap_end() == KERNEL_HEAP_END,
{
    let mut heap = FFAlloc::new();
    heap.init(KERNEL_HEAP_START, KERNEL_HEAP_SIZE);
    heap
}

/// The eternal heap over its span. Its pages are mapped with those of the
/// kernel heap, and it keeps no records, so there is nothing else to set up.
pub fn init_eternal_heap() -> (r: EternalAlloc)
    ensures
        r.cursor() == ETERNAL_HEAP_START,
        r.limit() == ETERNAL_HEAP_END,
{
    EternalAlloc::new(ETERNAL_HEAP_START, ETERNAL_HEAP_END)
}

/// Hands out `size` bytes of the eternal heap for good; see
/// `EternalAlloc::try_alloc`. Nothing is handed out where `size` is above
/// `MAX_ALLOC_SIZE`.
pub fn eternal_alloc(heap: &mut EternalAlloc, size: u64) -> (r: Option<u64>)
    ensures
        final(heap).limit() == old(heap).limit(),
        size > MAX_ALLOC_SIZE ==> r is None && *final(heap) == *old(heap),
        size <= MAX_ALLOC_SIZE ==> {
            &&& final(heap).cursor() == (if old(heap).has_room(size) {
                (old(heap).cursor() + size) as u64
            } else {
                old(heap).cursor()
            })
            &&& r == (if old(heap).has_room(size) && old(heap).cursor() != 0 {
                Some(old(heap).cursor())
            } else {
                None
            })
        },
{
    if size > MAX_ALLOC_SIZE {
        return None;
    }
    heap.try_alloc(size)
}

} // verus!
