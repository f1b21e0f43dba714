//! What holds of the first-fit heap over any run of requests.
//!
//! The allocator itself knows only its free list. Here the blocks that are
//! handed out are written down beside it, so that one can say what its users
//! may rely on: blocks in use never overlap, a block handed back can be had
//! again, and a block cannot be handed back twice.

use vstd::prelude::*;
use vstd::arithmetic::power2::is_pow2;
use crate::addr::ceil_to;
use crate::heap::ffallocator::allocation;
use crate::heap::ffallocator::block;
use crate::heap::ffallocator::carved;
use crate::heap::ffallocator::deallocation;
use crate::heap::ffallocator::first_fit;
use crate::heap::ffallocator::first_fit_alloc;
use crate::heap::ffallocator::fit;
use crate::heap::ffallocator::free_bytes;
use crate::heap::ffallocator::is_first_fit;
use crate::heap::ffallocator::leftover;
use crate::heap::ffallocator::lemma_first_fit_unique;
use crate::heap::ffallocator::lemma_fit_inside;
use crate::heap::ffallocator::lemma_no_fit;
use crate::heap::ffallocator::lemma_padded;
use crate::heap::ffallocator::lemma_padded_block;
use crate::heap::ffallocator::lemma_remove_keeps_list_ok;
use crate::heap::ffallocator::list_ok;
use crate::heap::ffallocator::padded;
use crate::heap::ffallocator::release;
use crate::heap::ffallocator::HeapError;
use crate::heap::ffallocator::Region;
use crate::heap::ffallocator::REGION_ALIGN;
use crate::heap::ffallocator::REGION_SIZE;

verus! {

/// A block that is in use: the address that `allocate` returned, and the
/// size and alignment it was asked for.
pub struct Allocation {
    pub ptr: u64,
    pub size: u64,
    pub align: u64,
}

impl Allocation {
    /// The memory that the allocation occupies: the padded size from `ptr`.
    pub open spec fn span(self) -> Region {
        block(self.ptr, padded(self.size, self.align).unwrap().0)
    }

    /// Whether the allocation is one that a heap from `lo` to `hi` can have
    /// made.
    pub open spec fn made_in(self, lo: int, hi: int) -> bool {
        &&& self.ptr != 0
        &&& padded(self.size, self.align) is Some
        &&& self.ptr % padded(self.size, self.align).unwrap().1 == 0
        &&& lo <= self.ptr
        &&& self.span().spec_end() <= hi
    }
}

/// The allocation at `ptr` of `size` bytes aligned on `align`.
pub open spec fn in_use(ptr: u64, size: u64, align: u64) -> Allocation {
    Allocation { ptr, size, align }
}

/// The request to allocate `size` bytes aligned on `align`.
pub open spec fn allocate(size: u64, align: u64) -> Request {
    Request::Allocate { size, align }
}

/// The request to take back the block at `ptr` of `size` bytes aligned on
/// `align`.
pub open spec fn deallocate(ptr: u64, size: u64, align: u64) -> Request {
    Request::Deallocate { ptr, size, align }
}

/// A request to the heap.
pub enum Request {
    Allocate { size: u64, align: u64 },
    Deallocate { ptr: u64, size: u64, align: u64 },
}

/// A heap as its users see it: where it lies, its free list, and the
/// allocations in use, oldest first.
pub struct Heap {
    pub lo: int,
    pub hi: int,
    pub free: Seq<Region>,
    pub live: Seq<Allocation>,
}

impl Heap {
    /// The heap that `init` makes: one free block, nothing in use.
    pub open spec fn fresh(addr: u64, size: u64) -> Heap {
        Heap { lo: addr as int, hi: addr + size, free: seq![block(addr, size)], live: Seq::empty() }
    }

    /// Whether the request is one the heap's users may make: any allocation,
    /// and the deallocation of a block in use, with the size and alignment it
    /// was allocated with.
    pub open spec fn admits(self, request: Request) -> bool {
        match request {
            Request::Allocate { .. } => true,
            Request::Deallocate { ptr, size, align } => self.live.contains(in_use(ptr, size, align)),
        }
    }

    /// The heap after the request.
    pub open spec fn step(self, request: Request) -> Heap {
        match request {
            Request::Allocate { size, align } => match allocation(self.free, size, align) {
                (Ok(ptr), free) => Heap {
                    free,
                    live: self.live.push(in_use(ptr, size, align)),
                    ..self
                },
                (Err(_), _) => self,
            },
            Request::Deallocate { ptr, size, align } => match deallocation(
                self.free,
                self.lo,
                self.hi,
                ptr,
                size,
                align,
            ) {
                (Ok(_), free) => Heap {
                    free,
                    live: self.live.remove(self.live.index_of(in_use(ptr, size, align))),
                    ..self
                },
                (Err(_), _) => self,
            },
        }
    }

    /// Whether each request of the run is one the heap's users may make, at
    /// the time it is made.
    pub open spec fn admits_all(self, requests: Seq<Request>) -> bool
        decreases requests.len(),
    {
        if requests.len() == 0 {
            true
        } else {
            self.admits(requests[0]) && self.step(requests[0]).admits_all(requests.skip(1))
        }
    }

    /// The heap after the requests of the run, first one first.
    pub open spec fn run(self, requests: Seq<Request>) -> Heap
        decreases requests.len(),
    {
        if requests.len() == 0 {
            self
        } else {
            self.step(requests[0]).run(requests.skip(1))
        }
    }

    /// Whether no two allocations in use overlap.
    pub open spec fn live_apart(self) -> bool {
        forall|i: int, j: int|
            0 <= i < self.live.len() && 0 <= j < self.live.len() && i != j ==> !(
            #[trigger] self.live[i]).span().overlaps((#[trigger] self.live[j]).span())
    }

    /// Whether no allocation in use overlaps a free block.
    pub open spec fn live_not_free(self) -> bool {
        forall|i: int, j: int|
            0 <= i < self.live.len() && 0 <= j < self.free.len() ==> !(
            #[trigger] self.live[i]).span().overlaps(#[trigger] self.free[j])
    }

    /// What holds of a heap at all times: it lies above address zero, its
    /// free list is well formed, its allocations lie inside it, and no two of
    /// its blocks, free or in use, overlap.
    pub open spec fn sound(self) -> bool {
        &&& 0 < self.lo <= self.hi <= u64::MAX
        &&& list_ok(self.free, self.lo, self.hi)
        &&& forall|i: int|
            0 <= i < self.live.len() ==> (#[trigger] self.live[i]).made_in(self.lo, self.hi)
        &&& self.live_apart()
        &&& self.live_not_free()
    }
}

/// A heap is sound when it is made.
pub proof fn lemma_fresh_sound(addr: u64, size: u64)
    requires
        addr > 0,
        addr % REGION_ALIGN == 0,
        size >= REGION_SIZE,
        addr + size <= u64::MAX,
    ensures
        Heap::fresh(addr, size).sound(),
{
}

/// An allocation leaves a sound heap sound, and the block it hands out lies
/// in the heap, is aligned as asked, and overlaps no block that is in use or
/// free.
pub proof fn lemma_allocate_sound(heap: Heap, size: u64, align: u64)
    requires
        heap.sound(),
    ensures
        heap.step(allocate(size, align)).sound(),
        allocation(heap.free, size, align).0 matches Ok(ptr) ==> {
            &&& in_use(ptr, size, align).made_in(heap.lo, heap.hi)
            &&& ptr % align == 0
            &&& forall|i: int|
                0 <= i < heap.live.len() ==> !(#[trigger] heap.live[i]).span().overlaps(
                    in_use(ptr, size, align).span(),
                )
        },
{
    let after = heap.step(allocate(size, align));
    if let (Ok(ptr), free) = allocation(heap.free, size, align) {
        let (s, a) = padded(size, align).unwrap();
        lemma_padded(size, align);
        let at = first_fit(heap.free, s, a).unwrap();
        let node = heap.free[at];
        assert(node.free_in(heap.lo, heap.hi));
        lemma_fit_inside(node, s, a);
        crate::addr::lemma_one_bit_is_pow2(a);
        if align < a {
            crate::addr::lemma_aligned_to_smaller(ptr as int, a, align);
        }
        let made = in_use(ptr, size, align);
        let rest = heap.free.remove(at);
        lemma_remove_keeps_list_ok(heap.free, heap.lo, heap.hi, at);
        assert forall|j: int| 0 <= j < rest.len() implies !node.overlaps(#[trigger] rest[j]) by {
            if j < at {
                assert(rest[j] == heap.free[j]);
            } else {
                assert(rest[j] == heap.free[j + 1]);
            }
        }
        lemma_carved_ok(heap.free, heap.lo, heap.hi, at, s, a);
        assert forall|i: int| 0 <= i < after.live.len() implies (#[trigger] after.live[i]).made_in(
            heap.lo,
            heap.hi,
        ) by {
            if i < heap.live.len() {
                assert(after.live[i] == heap.live[i]);
            }
        }
        assert forall|i: int, j: int|
            0 <= i < after.live.len() && 0 <= j < after.live.len() && i != j implies !(
        #[trigger] after.live[i]).span().overlaps((#[trigger] after.live[j]).span()) by {
            if i < heap.live.len() {
                assert(after.live[i] == heap.live[i]);
                assert(!heap.live[i].span().overlaps(heap.free[at]));
            }
            if j < heap.live.len() {
                assert(after.live[j] == heap.live[j]);
                assert(!heap.live[j].span().overlaps(heap.free[at]));
            }
        }
        assert forall|i: int, j: int|
            0 <= i < after.live.len() && 0 <= j < after.free.len() implies !(
        #[trigger] after.live[i]).span().overlaps(#[trigger] after.free[j]) by {
            let other = after.free[j];
            // A free block afterwards is what is left of `node`, or a block
            // that was free before.
            let was = if leftover(node, ptr, s) is Some {
                j - 1
            } else {
                j
            };
            if leftover(node, ptr, s) is Some && j == 0 {
                assert(other == leftover(node, ptr, s).unwrap());
            } else {
                assert(other == rest[was]);
                if was < at {
                    assert(other == heap.free[was]);
                } else {
                    assert(other == heap.free[was + 1]);
                }
            }
            if i < heap.live.len() {
                assert(after.live[i] == heap.live[i]);
                assert(!heap.live[i].span().overlaps(heap.free[at]));
            }
        }
        assert forall|i: int| 0 <= i < heap.live.len() implies !(
        #[trigger] heap.live[i]).span().overlaps(made.span()) by {
            assert(!heap.live[i].span().overlaps(heap.free[at]));
        }
    }
}

/// The free list after block `at` has served a request is one that the heap
/// can have.
pub proof fn lemma_carved_ok(nodes: Seq<Region>, lo: int, hi: int, at: int, size: u64, align: u64)
    requires
        list_ok(nodes, lo, hi),
        hi <= u64::MAX,
        is_first_fit(nodes, size, align, at),
        is_pow2(align as int),
        align % REGION_ALIGN == 0,
        size % REGION_ALIGN == 0,
    ensures
        list_ok(carved(nodes, at, size, align), lo, hi),
{
    let node = nodes[at];
    assert(node.free_in(lo, hi));
    lemma_fit_inside(node, size, align);
    let begin = fit(node, size, align).unwrap();
    let rest = nodes.remove(at);
    lemma_remove_keeps_list_ok(nodes, lo, hi, at);
    if let Some(left) = leftover(node, begin, size) {
        let after = seq![left] + rest;
        assert forall|i: int| 0 <= i < after.len() implies (#[trigger] after[i]).free_in(lo, hi) by {
            if i > 0 {
                assert(after[i] == rest[i - 1]);
            }
        }
        assert forall|i: int, j: int|
            0 <= i < after.len() && 0 <= j < after.len() && i != j implies !(
        #[trigger] after[i]).overlaps(#[trigger] after[j]) by {
            if i > 0 {
                assert(after[i] == rest[i - 1]);
                let oi = if i - 1 < at {
                    i - 1
                } else {
                    i
                };
                assert(rest[i - 1] == nodes[oi]);
                assert(!nodes[oi].overlaps(nodes[at]));
            }
            if j > 0 {
                assert(after[j] == rest[j - 1]);
                let oj = if j - 1 < at {
                    j - 1
                } else {
                    j
                };
                assert(rest[j - 1] == nodes[oj]);
                assert(!nodes[oj].overlaps(nodes[at]));
            }
        }
    }
}

/// The heap takes back every block in use, and is sound afterwards.
pub proof fn lemma_deallocate_sound(heap: Heap, ptr: u64, size: u64, align: u64)
    requires
        heap.sound(),
        heap.admits(deallocate(ptr, size, align)),
    ensures
        deallocation(heap.free, heap.lo, heap.hi, ptr, size, align).0 is Ok,
        heap.step(deallocate(ptr, size, align)).sound(),
{
    let entry = in_use(ptr, size, align);
    let k = heap.live.index_of(entry);
    assert(heap.live[k] == entry);
    assert(entry.made_in(heap.lo, heap.hi));
    lemma_padded(size, align);
    let (s, a) = padded(size, align).unwrap();
    lemma_padded_block(ptr, s, a);
    let freed = block(ptr, s);
    assert forall|j: int| 0 <= j < heap.free.len() implies !(#[trigger] heap.free[j]).overlaps(
        freed,
    ) by {
        assert(!heap.live[k].span().overlaps(heap.free[j]));
    }
    assert(release(heap.free, heap.lo, heap.hi, ptr, size, align) == Ok::<Region, HeapError>(freed));
    let after = heap.step(deallocate(ptr, size, align));
    assert(after.free == seq![freed] + heap.free);
    assert(after.live == heap.live.remove(k));
    assert forall|i: int| 0 <= i < after.free.len() implies (#[trigger] after.free[i]).free_in(
        heap.lo,
        heap.hi,
    ) by {
        if i > 0 {
            assert(after.free[i] == heap.free[i - 1]);
        }
    }
    assert forall|i: int, j: int|
        0 <= i < after.free.len() && 0 <= j < after.free.len() && i != j implies !(
    #[trigger] after.free[i]).overlaps(#[trigger] after.free[j]) by {
        if i > 0 {
            assert(after.free[i] == heap.free[i - 1]);
        }
        if j > 0 {
            assert(after.free[j] == heap.free[j - 1]);
        }
    }
    assert forall|i: int| 0 <= i < after.live.len() implies (#[trigger] after.live[i]).made_in(
        heap.lo,
        heap.hi,
    ) by {
        let oi = if i < k {
            i
        } else {
            i + 1
        };
        assert(after.live[i] == heap.live[oi]);
    }
    assert forall|i: int, j: int|
        0 <= i < after.live.len() && 0 <= j < after.live.len() && i != j implies !(
    #[trigger] after.live[i]).span().overlaps((#[trigger] after.live[j]).span()) by {
        let oi = if i < k {
            i
        } else {
            i + 1
        };
        let oj = if j < k {
            j
        } else {
            j + 1
        };
        assert(after.live[i] == heap.live[oi]);
        assert(after.live[j] == heap.live[oj]);
    }
    assert forall|i: int, j: int|
        0 <= i < after.live.len() && 0 <= j < after.free.len() implies !(
    #[trigger] after.live[i]).span().overlaps(#[trigger] after.free[j]) by {
        let oi = if i < k {
            i
        } else {
            i + 1
        };
        assert(after.live[i] == heap.live[oi]);
        if j > 0 {
            assert(after.free[j] == heap.free[j - 1]);
        } else {
            assert(!heap.live[oi].span().overlaps(heap.live[k].span()));
        }
    }
}

/// A request that the heap's users may make leaves a sound heap sound.
pub proof fn lemma_step_sound(heap: Heap, request: Request)
    requires
        heap.sound(),
        heap.admits(request),
    ensures
        heap.step(request).sound(),
{
    match request {
        Request::Allocate { size, align } => {
            lemma_allocate_sound(heap, size, align);
        },
        Request::Deallocate { ptr, size, align } => {
            lemma_deallocate_sound(heap, ptr, size, align);
        },
    }
}

/// Over any run of allocations, and of deallocations of blocks in use, no
/// two blocks in use ever overlap: the heap stays sound.
pub proof fn lemma_run_sound(heap: Heap, requests: Seq<Request>)
    requires
        heap.sound(),
        heap.admits_all(requests),
    ensures
        heap.run(requests).sound(),
        heap.run(requests).live_apart(),
    decreases requests.len(),
{
    if requests.len() > 0 {
        lemma_step_sound(heap, requests[0]);
        lemma_run_sound(heap.step(requests[0]), requests.skip(1));
    }
}

/// From the heap that `init` makes, no run of requests that its users may
/// make leads to two blocks in use that overlap.
pub proof fn lemma_live_allocations_never_overlap(addr: u64, size: u64, requests: Seq<Request>)
    requires
        addr > 0,
        addr % REGION_ALIGN == 0,
        size >= REGION_SIZE,
        addr + size <= u64::MAX,
        Heap::fresh(addr, size).admits_all(requests),
    ensures
        Heap::fresh(addr, size).run(requests).live_apart(),
{
    lemma_fresh_sound(addr, size);
    lemma_run_sound(Heap::fresh(addr, size), requests);
}

/// A block that was handed back serves the next request that fits it: one
/// whose padded size is that of the block, or smaller by at least a record,
/// and on whose alignment the block lies. The request gets the very address
/// that was handed back, and what it leaves of the block is free.
pub proof fn lemma_freed_block_is_reused(
    nodes: Seq<Region>,
    lo: int,
    hi: int,
    ptr: u64,
    size: u64,
    align: u64,
    next_size: u64,
    next_align: u64,
)
    requires
        hi <= u64::MAX,
        deallocation(nodes, lo, hi, ptr, size, align).0 is Ok,
        padded(next_size, next_align) is Some,
        ptr % padded(next_size, next_align).unwrap().1 == 0,
        padded(next_size, next_align).unwrap().0 == padded(size, align).unwrap().0 || padded(
            next_size,
            next_align,
        ).unwrap().0 + REGION_SIZE <= padded(size, align).unwrap().0,
    ensures
        ({
            let freed = deallocation(nodes, lo, hi, ptr, size, align).1;
            let s = padded(size, align).unwrap().0;
            let t = padded(next_size, next_align).unwrap().0;
            let (r, after) = allocation(freed, next_size, next_align);
            &&& r == Ok::<u64, HeapError>(ptr)
            &&& t == s ==> after == nodes
            &&& t < s ==> after == seq![block((ptr + t) as u64, (s - t) as u64)] + nodes
        }),
{
    let freed = deallocation(nodes, lo, hi, ptr, size, align).1;
    let (s, a) = padded(size, align).unwrap();
    let (t, b) = padded(next_size, next_align).unwrap();
    lemma_padded(next_size, next_align);
    crate::addr::lemma_one_bit_is_pow2(b);
    crate::addr::lemma_aligned_fixed(ptr as int, b as int);
    assert(freed == seq![block(ptr, s)] + nodes);
    assert(freed[0] == block(ptr, s));
    assert(fit(freed[0], t, b) == Some(ptr));
    lemma_first_fit_unique(freed, t, b, 0);
    assert(freed.remove(0) =~= nodes);
}

/// A request for more bytes than are free is turned down, and the free list
/// stays as it is.
pub proof fn lemma_more_than_free_fails(nodes: Seq<Region>, size: u64, align: u64)
    requires
        size > free_bytes(nodes),
    ensures
        allocation(nodes, size, align).0 is Err,
        allocation(nodes, size, align).1 == nodes,
{
    if let Some((s, a)) = padded(size, align) {
        lemma_padded(size, align);
        crate::addr::lemma_one_bit_is_pow2(a);
        assert forall|j: int| 0 <= j < nodes.len() implies fit(#[trigger] nodes[j], s, a) is None by {
            lemma_block_within_free_bytes(nodes, j);
            crate::addr::lemma_ceil_to(nodes[j].start as int, a as int);
        }
        lemma_no_fit(nodes, s, a);
    }
}

/// No free block is larger than the free bytes in all.
pub proof fn lemma_block_within_free_bytes(nodes: Seq<Region>, j: int)
    requires
        0 <= j < nodes.len(),
    ensures
        nodes[j].size <= free_bytes(nodes),
        0 <= free_bytes(nodes),
    decreases nodes.len(),
{
    lemma_free_bytes_nonnegative(nodes.skip(1));
    if j > 0 {
        lemma_block_within_free_bytes(nodes.skip(1), j - 1);
    }
}

/// The free bytes are a count.
pub proof fn lemma_free_bytes_nonnegative(nodes: Seq<Region>)
    ensures
        0 <= free_bytes(nodes),
    decreases nodes.len(),
{
    if nodes.len() > 0 {
        lemma_free_bytes_nonnegative(nodes.skip(1));
    }
}

/// A request that takes up all of the first block that fits, from its
/// aligned start to its end, consumes the block: it leaves the list, and
/// nothing of it comes back.
pub proof fn lemma_exact_fit_consumes(nodes: Seq<Region>, size: u64, align: u64, at: int)
    requires
        is_first_fit(nodes, size, align, at),
        ceil_to(nodes[at].start as int, align as int) + size == nodes[at].spec_end(),
        nodes[at].spec_end() <= u64::MAX,
    ensures
        first_fit_alloc(nodes, size, align) == Some(
            (ceil_to(nodes[at].start as int, align as int) as u64, nodes.remove(at)),
        ),
{
    lemma_first_fit_unique(nodes, size, align, at);
}

/// A block that would be left with less than a record is passed over: the
/// request is served as if the block were not on the list, and the block
/// stays where it is.
pub proof fn lemma_short_leftover_is_passed_over(nodes: Seq<Region>, size: u64, align: u64)
    requires
        nodes.len() > 0,
        0 < nodes[0].spec_end() - (ceil_to(nodes[0].start as int, align as int) + size)
            < REGION_SIZE,
    ensures
        fit(nodes[0], size, align) is None,
        first_fit(nodes, size, align) == match first_fit(nodes.skip(1), size, align) {
            Some(i) => Some(i + 1),
            None => None,
        },
{
    let rest = nodes.skip(1);
    match first_fit(rest, size, align) {
        Some(i) => {
            assert(is_first_fit(rest, size, align, i));
            assert forall|j: int| 0 <= j < i + 1 implies fit(#[trigger] nodes[j], size, align)
                is None by {
                if j > 0 {
                    assert(nodes[j] == rest[j - 1]);
                }
            }
            assert(nodes[i + 1] == rest[i]);
            lemma_first_fit_unique(nodes, size, align, i + 1);
        },
        None => {
            if exists|k: int| is_first_fit(nodes, size, align, k) {
                let k = choose|k: int| is_first_fit(nodes, size, align, k);
                assert(rest[k - 1] == nodes[k]);
                assert forall|j: int| 0 <= j < k - 1 implies fit(#[trigger] rest[j], size, align)
                    is None by {
                    assert(rest[j] == nodes[j + 1]);
                }
                assert(is_first_fit(rest, size, align, k - 1));
            }
        },
    }
}

/// A block that was handed back cannot be handed back again while it is
/// free: the second attempt is turned down, whatever size and alignment it
/// names, and the free list stays as it is. With the size and alignment of
/// the first, the reason given is `DoubleFree`.
pub proof fn lemma_double_free_is_rejected(
    nodes: Seq<Region>,
    lo: int,
    hi: int,
    ptr: u64,
    size: u64,
    align: u64,
    again_size: u64,
    again_align: u64,
)
    requires
        deallocation(nodes, lo, hi, ptr, size, align).0 is Ok,
    ensures
        ({
            let freed = deallocation(nodes, lo, hi, ptr, size, align).1;
            &&& deallocation(freed, lo, hi, ptr, again_size, again_align).0 is Err
            &&& deallocation(freed, lo, hi, ptr, again_size, again_align).1 == freed
            &&& deallocation(freed, lo, hi, ptr, size, align).0 == Err::<(), HeapError>(
                HeapError::DoubleFree,
            )
        }),
{
    let freed = deallocation(nodes, lo, hi, ptr, size, align).1;
    lemma_padded(size, align);
    let s = padded(size, align).unwrap().0;
    assert(freed[0] == block(ptr, s));
    assert(freed[0].overlaps(block(ptr, s)));
    if let Some((t, b)) = padded(again_size, again_align) {
        lemma_padded(again_size, again_align);
        assert(freed[0].overlaps(block(ptr, t)));
    }
}

} // verus!
