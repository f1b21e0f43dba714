//! The frame allocator that bootstraps the kernel heap.
//!
//! It hands out physical frames of two sizes from the firmware's memory map
//! while no heap exists yet. One usable region, large enough for the whole
//! heap, serves large frames from its first large-page boundary upwards. Small
//! frames come from a second usable region if the map has one, and then from
//! the top of the large region downwards. The two cursors of the large
//! region must never meet.

use vstd::prelude::*;
use bootloader::bootinfo::MemoryMap;
use crate::addr::align_to_spec;
use crate::addr::Addr;
use crate::heap::TOTAL_HEAP_SIZE;
use crate::range::Range;
use crate::vmem::memory_map::region;
use crate::vmem::memory_map::region_count;
use crate::vmem::memory_map::regions_of;
use crate::vmem::memory_map::PhysRegion;
use crate::vmem::memory_map::FRAME_LIMIT;
use crate::vmem::paging::frame_at;
use crate::vmem::paging::frame_starting_at;
use crate::vmem::paging::is_canonical;
use crate::vmem::paging::page_containing;
use crate::vmem::paging::Frame;
use crate::vmem::paging::FrameSize;
use crate::vmem::paging::PageRange;
use crate::vmem::paging::LPAGE_SIZE;
use crate::vmem::paging::PAGE_SIZE;
use crate::vmem::paging::PHYS_LIMIT;

verus! {

/// Whether `k` is the first region that can hold the heap.
pub open spec fn first_large(regions: Seq<PhysRegion>, heap_size: u64, k: int) -> bool {
    &&& 0 <= k < regions.len()
    &&& regions[k].holds(heap_size)
    &&& forall|j: int| 0 <= j < k ==> !(#[trigger] regions[j]).holds(heap_size)
}

/// Whether `k` is the first region that counts and is not the large region.
pub open spec fn first_small(regions: Seq<PhysRegion>, heap_size: u64, k: int) -> bool {
    &&& 0 <= k < regions.len()
    &&& regions[k].counts()
    &&& !first_large(regions, heap_size, k)
    &&& forall|j: int|
        0 <= j < k && (#[trigger] regions[j]).counts() ==> first_large(regions, heap_size, j)
}

/// The large region: the first one that can hold the heap.
pub open spec fn large_region(regions: Seq<PhysRegion>, heap_size: u64) -> Option<PhysRegion> {
    if exists|k: int| first_large(regions, heap_size, k) {
        Some(regions[choose|k: int| first_large(regions, heap_size, k)])
    } else {
        None
    }
}

/// The auxiliary small region: the first one that counts besides the large
/// region.
pub open spec fn small_region(regions: Seq<PhysRegion>, heap_size: u64) -> Option<PhysRegion> {
    if exists|k: int| first_small(regions, heap_size, k) {
        Some(regions[choose|k: int| first_small(regions, heap_size, k)])
    } else {
        None
    }
}

/// The frame allocator that bootstraps the kernel heap.
#[derive(Clone, Copy, Debug)]
pub struct BootstrapFramesAlloc {
    /// The two ranges of small frames, by start address.
    pub srange: [Range<u64>; 2],
    /// The next small frame; outside both ranges once they are used up.
    pub snext: u64,
    /// The range of large frames.
    pub lrange: Range<u64>,
    /// The next large frame.
    pub lnext: u64,
    /// The next small frame to salvage from the top of the large range.
    pub back: u64,
}

impl BootstrapFramesAlloc {
    /// The allocator over a large region and, if there is one, an auxiliary
    /// small region.
    ///
    /// The large region is cut at its first large-page boundary: the part
    /// below is a range of small frames, the rest the range of large frames.
    /// The salvage cursor starts at the region's last small frame.
    pub open spec fn seeded(large: PhysRegion, small: Option<PhysRegion>) -> Self {
        let start = large.start_addr();
        let end = large.end_addr();
        let big = align_to_spec(start, end - start, LPAGE_SIZE as int).1;
        let prefix = Range { start: start as u64, end: big as u64 };
        let aux = match small {
            Some(s) => Range { start: s.start_addr() as u64, end: s.end_addr() as u64 },
            None => Range { start: u64::MAX, end: u64::MAX },
        };
        BootstrapFramesAlloc {
            srange: if prefix.start < aux.start {
                [prefix, aux]
            } else {
                [aux, prefix]
            },
            snext: aux.start,
            lrange: Range { start: big as u64, end: end as u64 },
            lnext: big as u64,
            back: (end - PAGE_SIZE) as u64,
        }
    }

    /// The allocator that `with_heap_size` makes of the regions given.
    pub open spec fn bootstrap(regions: Seq<PhysRegion>, heap_size: u64) -> Option<Self> {
        match large_region(regions, heap_size) {
            Some(large) => Some(Self::seeded(large, small_region(regions, heap_size))),
            None => None,
        }
    }

    /// What every allocator made by `with_heap_size` for a heap of at least
    /// one large page satisfies, and what allocation keeps: all ranges are
    /// physical memory cut at small-frame boundaries, the large cursor moves
    /// in large-frame steps from a large-frame boundary, and the salvage cursor
    /// is above it.
    pub open spec fn wf(self) -> bool {
        &&& forall|k: int|
            0 <= k < 2 ==> {
                ||| (#[trigger] self.srange[k]).start == u64::MAX
                ||| self.srange[k].start % PAGE_SIZE == 0 && self.srange[k].end % PAGE_SIZE == 0
                    && self.srange[k].end <= PHYS_LIMIT
            }
        &&& self.snext == u64::MAX || self.snext % PAGE_SIZE == 0
        &&& self.lrange.start % LPAGE_SIZE == 0
        &&& self.lrange.end % PAGE_SIZE == 0
        &&& self.lrange.end <= PHYS_LIMIT
        &&& self.lnext % LPAGE_SIZE == 0
        &&& self.back % PAGE_SIZE == 0
        &&& self.lrange.start <= self.lnext < self.back < self.lrange.end
    }

    /// Whether the first small range lies before the second, and both lie
    /// before or behind the large range. This is so where the regions of the
    /// memory map do not overlap.
    pub open spec fn ranges_apart(self) -> bool {
        &&& self.srange[0].end <= self.srange[1].start
        &&& apart(self.srange[0], self.lrange)
        &&& apart(self.srange[1], self.lrange)
    }

    /// The addresses that have not been handed out: the small ranges from
    /// the small cursor on, and the large range between its two cursors.
    pub open spec fn unused(self) -> Set<int> {
        Set::new(
            |a: int|
                {
                    ||| self.small_slot() == Some(0int) && (self.snext <= a < self.srange[0].end
                        || self.srange[1].start <= a < self.srange[1].end)
                    ||| self.small_slot() == Some(1int) && self.snext <= a < self.srange[1].end
                    ||| self.lnext <= a < self.back + PAGE_SIZE
                },
        )
    }

    /// The index of the small range that holds the cursor, if one does.
    pub open spec fn small_slot(self) -> Option<int> {
        if self.srange[0].start <= self.snext < self.srange[0].end {
            Some(0)
        } else if self.srange[1].start <= self.snext < self.srange[1].end {
            Some(1)
        } else {
            None
        }
    }

    /// Whether a small frame can be salvaged: the salvage cursor stays above
    /// the large cursor after it has moved down by one small frame.
    pub open spec fn can_salvage(self) -> bool {
        self.back - PAGE_SIZE > self.lnext
    }

    /// Whether a large frame can be had: the large cursor stays below the
    /// salvage cursor after it has moved up by one large frame.
    pub open spec fn can_pop_large(self) -> bool {
        self.lnext + LPAGE_SIZE < self.back
    }

    /// The small cursor after the frame at it is taken from range `slot`: one
    /// small frame on, or at the start of the next range where it has left
    /// the first one.
    pub open spec fn advanced(self, slot: int) -> u64 {
        let next = if self.snext + PAGE_SIZE <= u64::MAX {
            (self.snext + PAGE_SIZE) as u64
        } else {
            u64::MAX
        };
        if slot == 0 && !(self.srange[0].start <= next < self.srange[0].end) {
            self.srange[1].start
        } else {
            next
        }
    }

    /// The allocator after `pop_region`, and the frame it hands out.
    pub open spec fn after_pop_region(self) -> (Self, Option<Frame>) {
        match self.small_slot() {
            Some(slot) => (
                BootstrapFramesAlloc { snext: self.advanced(slot), ..self },
                frame_at(self.snext, FrameSize::Small),
            ),
            None => if self.can_salvage() {
                (
                    BootstrapFramesAlloc { back: (self.back - PAGE_SIZE) as u64, ..self },
                    frame_at(self.back, FrameSize::Small),
                )
            } else {
                (self, None)
            },
        }
    }

    /// The allocator after `pop_large`, and the frame it hands out.
    pub open spec fn after_pop_large(self) -> (Self, Option<Frame>) {
        if self.can_pop_large() {
            (
                BootstrapFramesAlloc { lnext: (self.lnext + LPAGE_SIZE) as u64, ..self },
                frame_at(self.lnext, FrameSize::Large),
            )
        } else {
            (self, None)
        }
    }

    /// The allocator for the kernel's heaps, from the firmware's memory map;
    /// `None` where no region of the map can hold them.
    pub fn new(memory_map: &MemoryMap) -> (r: Option<Self>)
        ensures
            r == Self::bootstrap(regions_of(*memory_map), TOTAL_HEAP_SIZE),
            r matches Some(a) ==> a.wf(),
    {
        Self::with_heap_size(memory_map, TOTAL_HEAP_SIZE)
    }

    /// The allocator for a heap of `heap_size` bytes. Regions are taken in
    /// the map's order. The first region that counts and is larger than
    /// the heap becomes the large region, the first other region that counts
    /// the auxiliary small region. Without a large region there is no
    /// allocator.
    pub fn with_heap_size(memory_map: &MemoryMap, heap_size: u64) -> (r: Option<Self>)
        ensures
            r == Self::bootstrap(regions_of(*memory_map), heap_size),
            r is Some <==> exists|k: int|
                0 <= k < regions_of(*memory_map).len() && (#[trigger] regions_of(
                    *memory_map,
                )[k]).holds(heap_size),
            heap_size >= LPAGE_SIZE ==> (r matches Some(a) ==> a.wf()),
    {
        let ghost regions = regions_of(*memory_map);
        let n = region_count(memory_map);
        let mut small: Option<PhysRegion> = None;
        let mut large: Option<PhysRegion> = None;
        let ghost mut large_at: int = 0;
        let ghost mut small_at: int = 0;
        let mut i: usize = 0;
        while i < n
            invariant
                i <= n,
                n == regions.len(),
                regions == regions_of(*memory_map),
                large is None ==> forall|j: int|
                    0 <= j < i ==> !(#[trigger] regions[j]).holds(heap_size),
                large matches Some(l) ==> first_large(regions, heap_size, large_at) && l
                    == regions[large_at] && large_at < i,
                small is None ==> forall|j: int|
                    0 <= j < i && (#[trigger] regions[j]).counts() ==> first_large(
                        regions,
                        heap_size,
                        j,
                    ),
                small matches Some(s) ==> first_small(regions, heap_size, small_at) && s
                    == regions[small_at] && small_at < i,
            decreases n - i,
        {
            let region = region(memory_map, i);
            if region.usable && region.start_frame <= region.end_frame && region.end_frame
                <= FRAME_LIMIT {
                let bytes = (region.end_frame - region.start_frame) * PAGE_SIZE;
                if large.is_none() && bytes > heap_size {
                    large = Some(region);
                    proof {
                        large_at = i as int;
                    }
                } else if small.is_none() {
                    small = Some(region);
                    proof {
                        small_at = i as int;
                    }
                }
            }
            i += 1;
        }
        proof {
            if large is Some {
                lemma_first_large_unique(regions, heap_size, large_at);
            }
            if small is Some {
                lemma_first_small_unique(regions, heap_size, small_at);
            }
        }
        match large {
            Some(region) => Some(Self::seed(region, small, Ghost(heap_size))),
            None => None,
        }
    }

    /// Makes the allocator over the regions chosen.
    fn seed(large: PhysRegion, small: Option<PhysRegion>, Ghost(heap_size): Ghost<u64>) -> (r:
        Self)
        requires
            large.holds(heap_size),
            small matches Some(s) ==> s.counts(),
        ensures
            r == Self::seeded(large, small),
            heap_size >= LPAGE_SIZE ==> r.wf(),
    {
        let start = large.start_frame * PAGE_SIZE;
        let end = large.end_frame * PAGE_SIZE;
        proof {
            lemma_large_page_is_pow2();
            crate::addr::lemma_ceil_to(start as int, LPAGE_SIZE as int);
        }
        let (begin, big, _) = start.align_to(end - start, LPAGE_SIZE);
        let prefix = Range::new(begin, big);
        let (aux, snext) = match small {
            Some(s) => (
                Range::new(s.start_frame * PAGE_SIZE, s.end_frame * PAGE_SIZE),
                s.start_frame * PAGE_SIZE,
            ),
            None => (Range::new(u64::MAX, u64::MAX), u64::MAX),
        };
        let srange = if prefix.start < aux.start {
            [prefix, aux]
        } else {
            [aux, prefix]
        };
        let r = BootstrapFramesAlloc {
            srange,
            snext,
            lrange: Range::new(big, end),
            lnext: big,
            back: (end - PAGE_SIZE).align_down(PAGE_SIZE),
        };
        proof {
            lemma_small_page_is_pow2();
            crate::addr::lemma_aligned_fixed(end - PAGE_SIZE, PAGE_SIZE as int);
            assert(r.back == end - PAGE_SIZE);
            assert(r.srange =~= Self::seeded(large, small).srange);
            if heap_size >= LPAGE_SIZE {
                crate::addr::lemma_aligned_to_smaller(big as int, LPAGE_SIZE, PAGE_SIZE);
                // On a grid of small frames, the next large-page boundary is
                // at most one large page less one small frame away.
                if big > start {
                    crate::addr::lemma_aligned_sum(big as int, start as int, PAGE_SIZE as int);
                }
                assert(big - start <= LPAGE_SIZE - PAGE_SIZE);
            }
        }
        r
    }

    /// Hands out a small frame; it is not mapped.
    ///
    /// The frame is the one at the small cursor while a small range holds the
    /// cursor. After that it is salvaged from the top of the large range,
    /// until the salvage cursor would meet the large cursor: then there is no
    /// frame, and nothing changes.
    pub fn pop_region(&mut self) -> (r: Option<Frame>)
        ensures
            (*final(self), r) == old(self).after_pop_region(),
            old(self).wf() ==> final(self).wf(),
            old(self).wf() ==> (r is Some <==> old(self).small_slot() is Some || old(
                self,
            ).can_salvage()),
            r matches Some(f) ==> f.wf() && f.size == FrameSize::Small,
    {
        let slot: usize = if self.srange[0].contains(self.snext) {
            0
        } else if self.srange[1].contains(self.snext) {
            1
        } else {
            if self.back < PAGE_SIZE || self.back - PAGE_SIZE <= self.lnext {
                return None;
            }
            let addr = self.back;
            self.back -= PAGE_SIZE;
            proof {
                if old(self).wf() {
                    crate::addr::lemma_aligned_sum(
                        old(self).back as int,
                        PAGE_SIZE as int,
                        PAGE_SIZE as int,
                    );
                }
                assert(self.srange =~= old(self).srange);
            }
            return Self::atof(addr, FrameSize::Small);
        };
        let frame = Self::atof(self.snext, FrameSize::Small);
        self.snext = match self.snext.checked_add(PAGE_SIZE) {
            Some(next) => next,
            None => u64::MAX,
        };
        // Past the first range, go on with the second. Past the second, the
        // next call salvages from the back.
        if slot == 0 && !self.srange[0].contains(self.snext) {
            self.snext = self.srange[1].start;
        }
        proof {
            assert(self.srange =~= old(self).srange);
            if old(self).wf() {
                assert(old(self).srange[slot as int].start != u64::MAX);
                crate::addr::lemma_aligned_sum(
                    old(self).snext as int,
                    PAGE_SIZE as int,
                    PAGE_SIZE as int,
                );
            }
        }
        frame
    }

    /// Hands out a large frame; it is not mapped.
    ///
    /// The frame is the one at the large cursor, unless the cursor would
    /// reach the salvage cursor by moving past it: then there is no frame,
    /// and nothing changes.
    pub fn pop_large(&mut self) -> (r: Option<Frame>)
        ensures
            (*final(self), r) == old(self).after_pop_large(),
            old(self).wf() ==> final(self).wf(),
            old(self).wf() ==> (r is Some <==> old(self).can_pop_large()),
            r matches Some(f) ==> f.wf() && f.size == FrameSize::Large,
    {
        let next = match self.lnext.checked_add(LPAGE_SIZE) {
            Some(next) => next,
            None => {
                return None;
            },
        };
        if next >= self.back {
            return None;
        }
        let addr = self.lnext;
        self.lnext = next;
        proof {
            assert(self.srange =~= old(self).srange);
            if old(self).wf() {
                crate::addr::lemma_aligned_sum(addr as int, LPAGE_SIZE as int, LPAGE_SIZE as int);
            }
        }
        Self::atof(addr, FrameSize::Large)
    }

    /// The frame of the given size that starts at the physical address
    /// `addr`, if one does.
    pub fn atof(addr: u64, size: FrameSize) -> (r: Option<Frame>)
        ensures
            r == frame_at(addr, size),
            r matches Some(f) ==> f.wf() && f.size == size,
    {
        frame_starting_at(addr, size)
    }
}

/// Whether one of the two ranges lies before the other.
pub open spec fn apart(a: Range<u64>, b: Range<u64>) -> bool {
    a.end <= b.start || b.end <= a.start
}

/// The addresses of a frame.
pub open spec fn frame_addresses(frame: Frame) -> Set<int> {
    Set::new(|a: int| frame.start <= a < frame.end())
}

/// No frame is handed out twice: a frame that the allocator hands out was
/// unused, and is not unused afterwards, while every other address stays
/// as it was. This holds of both sizes of frames, for an allocator that is
/// well formed and whose ranges do not overlap.
pub proof fn lemma_frames_are_handed_out_once(alloc: BootstrapFramesAlloc)
    requires
        alloc.wf(),
        alloc.ranges_apart(),
    ensures
        alloc.after_pop_region().1 matches Some(frame) ==> {
            &&& frame_addresses(frame).subset_of(alloc.unused())
            &&& alloc.after_pop_region().0.unused() == alloc.unused().difference(
                frame_addresses(frame),
            )
        },
        alloc.after_pop_region().1 is None ==> alloc.after_pop_region().0.unused()
            == alloc.unused(),
        alloc.after_pop_large().1 matches Some(frame) ==> {
            &&& frame_addresses(frame).subset_of(alloc.unused())
            &&& alloc.after_pop_large().0.unused() == alloc.unused().difference(
                frame_addresses(frame),
            )
        },
        alloc.after_pop_large().1 is None ==> alloc.after_pop_large().0.unused() == alloc.unused(),
        alloc.after_pop_region().0.ranges_apart(),
        alloc.after_pop_large().0.ranges_apart(),
{
    let (small_after, small_frame) = alloc.after_pop_region();
    let (large_after, large_frame) = alloc.after_pop_large();
    assert(small_after.srange =~= alloc.srange);
    assert(large_after.srange =~= alloc.srange);
    match alloc.small_slot() {
        Some(slot) => {
            assert(alloc.srange[slot].start != u64::MAX);
            crate::addr::lemma_multiples_apart(
                alloc.snext as int,
                alloc.srange[slot].end as int,
                PAGE_SIZE as int,
            );
            vstd::arithmetic::div_mod::lemma_mod_self_0(PAGE_SIZE as int);
            crate::addr::lemma_aligned_sum(alloc.snext as int, PAGE_SIZE as int, PAGE_SIZE as int);
            let frame = small_frame.unwrap();
            assert(small_after.unused() =~= alloc.unused().difference(frame_addresses(frame)));
        },
        None => {
            if let Some(frame) = small_frame {
                assert(small_after.unused() =~= alloc.unused().difference(
                    frame_addresses(frame),
                ));
            } else {
                assert(small_after.unused() =~= alloc.unused());
            }
        },
    }
    if let Some(frame) = large_frame {
        assert(large_after.unused() =~= alloc.unused().difference(frame_addresses(frame)));
    } else {
        assert(large_after.unused() =~= alloc.unused());
    }
}

/// The ranges of an allocator are apart where the regions it is made of
/// are: where the auxiliary region, if there is one, lies before or behind
/// the large region.
pub proof fn lemma_seeded_ranges_apart(
    large: PhysRegion,
    small: Option<PhysRegion>,
    heap_size: u64,
)
    requires
        large.holds(heap_size),
        small matches Some(s) ==> s.counts() && (s.end_frame <= large.start_frame
            || large.end_frame <= s.start_frame),
    ensures
        BootstrapFramesAlloc::seeded(large, small).ranges_apart(),
{
    lemma_large_page_is_pow2();
    crate::addr::lemma_ceil_to(large.start_addr(), LPAGE_SIZE as int);
}

/// Only one region is the first that can hold the heap.
pub proof fn lemma_first_large_unique(regions: Seq<PhysRegion>, heap_size: u64, k: int)
    requires
        first_large(regions, heap_size, k),
    ensures
        large_region(regions, heap_size) == Some(regions[k]),
        forall|j: int| first_large(regions, heap_size, j) ==> j == k,
{
    assert forall|j: int| first_large(regions, heap_size, j) implies j == k by {
        if j < k {
            assert(!regions[j].holds(heap_size));
        } else if k < j {
            assert(!regions[k].holds(heap_size));
        }
    }
}

/// Only one region is the first that counts besides the large one.
pub proof fn lemma_first_small_unique(regions: Seq<PhysRegion>, heap_size: u64, k: int)
    requires
        first_small(regions, heap_size, k),
    ensures
        small_region(regions, heap_size) == Some(regions[k]),
        forall|j: int| first_small(regions, heap_size, j) ==> j == k,
{
    assert forall|j: int| first_small(regions, heap_size, j) implies j == k by {
        if j < k {
            assert(regions[j].counts());
        } else if k < j {
            assert(regions[k].counts());
        }
    }
}

/// 4096 is a power of two.
pub proof fn lemma_small_page_is_pow2()
    ensures
        vstd::arithmetic::power2::is_pow2(PAGE_SIZE as int),
{
    reveal_with_fuel(vstd::arithmetic::power2::is_pow2, 14);
}

/// 2 MiB is a power of two.
pub proof fn lemma_large_page_is_pow2()
    ensures
        vstd::arithmetic::power2::is_pow2(LPAGE_SIZE as int),
{
    reveal_with_fuel(vstd::arithmetic::power2::is_pow2, 23);
}

/// The pages of the given size from the one that holds `start_addr` up to,
/// not including, the one that holds `end_addr`.
pub fn page_range(start_addr: u64, end_addr: u64, size: FrameSize) -> (r: PageRange)
    requires
        is_canonical(start_addr),
        is_canonical(end_addr),
    ensures
        r.start == crate::addr::floor_to(start_addr as int, size.bytes() as int),
        r.end == crate::addr::floor_to(end_addr as int, size.bytes() as int),
        r.size == size,
{
    proof {
        lemma_small_page_is_pow2();
        lemma_large_page_is_pow2();
    }
    let end = end_addr.align_down(size.bytes());
    proof {
        crate::addr::lemma_floor_to(end_addr as int, size.bytes() as int);
        crate::addr::lemma_aligned_fixed(end as int, size.bytes() as int);
        crate::vmem::paging::lemma_floor_canonical(end_addr, size);
    }
    PageRange { start: page_containing(start_addr, size), end: page_containing(end, size), size }
}

/// Why a page could not be mapped.
#[derive(Clone, Copy, Debug, PartialEq, Eq, Structural)]
pub enum MapToError {
    /// A frame for the page, or for a page table, could not be had.
    FrameAllocationFailed,
    /// A page table above the page maps a huge page in its place.
    ParentEntryHugePage,
    /// The page is mapped already, to the frame given.
    PageAlreadyMapped(Frame),
}

/// The error of mapping a large page, as an error of mapping small pages:
/// the frame of a page that was mapped already is named by its first small
/// frame.
pub open spec fn as_small_page_error(err: MapToError) -> MapToError {
    match err {
        MapToError::PageAlreadyMapped(frame) => MapToError::PageAlreadyMapped(
            Frame { start: frame.start, size: FrameSize::Small },
        ),
        MapToError::FrameAllocationFailed => MapToError::FrameAllocationFailed,
        MapToError::ParentEntryHugePage => MapToError::ParentEntryHugePage,
    }
}

/// The error of mapping a large page, as an error of mapping small pages.
pub fn map_page_err(err: MapToError) -> (r: MapToError)
    ensures
        r == as_small_page_error(err),
{
    match err {
        MapToError::PageAlreadyMapped(frame) => MapToError::PageAlreadyMapped(
            Frame { start: frame.start, size: FrameSize::Small },
        ),
        MapToError::FrameAllocationFailed => MapToError::FrameAllocationFailed,
        MapToError::ParentEntryHugePage => MapToError::ParentEntryHugePage,
    }
}

} // verus!
