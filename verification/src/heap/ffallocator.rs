//! The first-fit allocator of the kernel heap.
//!
//! The heap is one buffer of 64-bit words that the allocator owns. A free
//! block begins with a record of two words, the address of the next free
//! block and the block's own size, so the free list lives in the free memory
//! itself and costs nothing else. The list is in no particular order, and
//! neighbouring free blocks are never merged.
//!
//! An allocation takes the first block of the list that can hold it. What is
//! left over behind the allocation goes back to the head of the list; a block
//! that would leave less than a record behind is passed over, so that every
//! free fragment can be used again.
//!
//! The allocator writes to free memory only. The words of a block in use
//! are its user's, to `load` and to `store`, until the block is handed back.

use vstd::prelude::*;
use vstd::arithmetic::power2::is_pow2;
use crate::addr::ceil_to;
use crate::addr::is_power_of_two;
use crate::addr::Addr;

verus! {

/// The size of the record at the start of a free block, in bytes.
pub const REGION_SIZE: u64 = 16;

/// The alignment of the record at the start of a free block, in bytes.
pub const REGION_ALIGN: u64 = 8;

/// The largest size that a request may have once it is rounded up to its
/// alignment.
pub const MAX_LAYOUT_SIZE: u64 = 0x7fff_ffff_ffff_ffff;

/// Why the heap turned a request down.
#[derive(Clone, Copy, Debug, PartialEq, Eq, Structural)]
pub enum HeapError {
    /// The size and alignment asked for cannot be padded to a valid layout.
    AlignmentUnsatisfiable,
    /// No free block can hold the request.
    HeapExhausted,
    /// The null pointer was handed back.
    NullPointer,
    /// The block handed back is not one that this heap hands out: it lies
    /// outside the heap, or is not aligned as its layout says.
    ForeignPointer,
    /// The block handed back is free already, in whole or in part.
    DoubleFree,
}

/// A block of memory: `size` bytes from `start`.
#[derive(Clone, Copy, Debug, PartialEq, Eq, Structural)]
pub struct Region {
    pub start: u64,
    pub size: u64,
}

impl Region {
    /// The address that no block starts at; it ends the free list.
    pub fn null() -> (r: u64)
        ensures
            r == 0,
    {
        0
    }

    /// The first address after the block.
    pub open spec fn spec_end(self) -> int {
        self.start + self.size
    }

    /// Whether the two blocks share an address.
    pub open spec fn overlaps(self, other: Region) -> bool {
        self.start < other.spec_end() && other.start < self.spec_end()
    }

    /// Whether the block can be on the free list of a heap from `lo` to `hi`:
    /// it lies in the heap, and a record fits at its start.
    pub open spec fn free_in(self, lo: int, hi: int) -> bool {
        &&& self.start % REGION_ALIGN == 0
        &&& self.size >= REGION_SIZE
        &&& lo <= self.start
        &&& self.spec_end() <= hi
    }

    /// The first address of the block.
    pub fn begin(&self) -> (r: u64)
        ensures
            r == self.start,
    {
        self.start
    }

    /// The first address after the block.
    pub fn end(&self) -> (r: u64)
        requires
            self.spec_end() <= u64::MAX,
        ensures
            r == self.spec_end(),
    {
        self.start + self.size
    }
}

/// The block of `size` bytes at `start`.
pub open spec fn block(start: u64, size: u64) -> Region {
    Region { start, size }
}

/// The size and alignment of the block that serves a request: the alignment
/// is at least that of a record, the size is rounded up to the alignment and
/// is at least that of a record, so that the block can hold one when it is
/// free again. `None` where `align` is no power of two or the rounded size is
/// above `MAX_LAYOUT_SIZE`.
pub open spec fn padded(size: u64, align: u64) -> Option<(u64, u64)> {
    let a = if align < REGION_ALIGN {
        REGION_ALIGN
    } else {
        align
    };
    if is_pow2(align as int) && size + a - 1 <= MAX_LAYOUT_SIZE {
        let s = ceil_to(size as int, a as int);
        Some(
            (
                if s < REGION_SIZE {
                    REGION_SIZE
                } else {
                    s as u64
                },
                a,
            ),
        )
    } else {
        None
    }
}

/// Where a block of `size` bytes aligned on `align` starts inside the free
/// block `node`, if `node` can serve it: the block must end inside `node`,
/// and leave behind nothing or at least a record.
pub open spec fn fit(node: Region, size: u64, align: u64) -> Option<u64> {
    let begin = ceil_to(node.start as int, align as int);
    let excess = node.spec_end() - (begin + size);
    if excess == 0 || excess >= REGION_SIZE {
        Some(begin as u64)
    } else {
        None
    }
}

/// Whether `i` is the first block of the list that can serve the request.
pub open spec fn is_first_fit(nodes: Seq<Region>, size: u64, align: u64, i: int) -> bool {
    &&& 0 <= i < nodes.len()
    &&& fit(nodes[i], size, align) is Some
    &&& forall|j: int| 0 <= j < i ==> fit(#[trigger] nodes[j], size, align) is None
}

/// The index of the first block of the list that can serve the request.
pub open spec fn first_fit(nodes: Seq<Region>, size: u64, align: u64) -> Option<int> {
    if exists|i: int| is_first_fit(nodes, size, align, i) {
        Some(choose|i: int| is_first_fit(nodes, size, align, i))
    } else {
        None
    }
}

/// What is left of the free block `node` behind an allocation of `size`
/// bytes at `begin`.
pub open spec fn leftover(node: Region, begin: u64, size: u64) -> Option<Region> {
    if begin + size < node.spec_end() {
        Some(Region { start: (begin + size) as u64, size: (node.spec_end() - begin - size) as u64 })
    } else {
        None
    }
}

/// The free list after the block at index `i` has served a request: the
/// block is gone, and what is left of it is at the head.
pub open spec fn carved(nodes: Seq<Region>, i: int, size: u64, align: u64) -> Seq<Region> {
    let begin = fit(nodes[i], size, align).unwrap();
    match leftover(nodes[i], begin, size) {
        Some(rest) => seq![rest] + nodes.remove(i),
        None => nodes.remove(i),
    }
}

/// What an allocation of a padded `size` and `align` gives on the free list
/// `nodes`: the address, and the list afterwards.
pub open spec fn first_fit_alloc(nodes: Seq<Region>, size: u64, align: u64) -> Option<
    (u64, Seq<Region>),
> {
    match first_fit(nodes, size, align) {
        Some(i) => Some((fit(nodes[i], size, align).unwrap(), carved(nodes, i, size, align))),
        None => None,
    }
}

/// What `allocate` returns on the free list `nodes`, and the list afterwards.
pub open spec fn allocation(nodes: Seq<Region>, size: u64, align: u64) -> (
    Result<u64, HeapError>,
    Seq<Region>,
) {
    match padded(size, align) {
        None => (Err(HeapError::AlignmentUnsatisfiable), nodes),
        Some((s, a)) => match first_fit_alloc(nodes, s, a) {
            None => (Err(HeapError::HeapExhausted), nodes),
            Some((addr, after)) => (Ok(addr), after),
        },
    }
}

/// The block that `deallocate` puts on the free list of a heap from `lo` to
/// `hi`, or the reason why it does not.
pub open spec fn release(nodes: Seq<Region>, lo: int, hi: int, ptr: u64, size: u64, align: u64)
    -> Result<Region, HeapError> {
    if ptr == 0 {
        Err(HeapError::NullPointer)
    } else {
        match padded(size, align) {
            None => Err(HeapError::AlignmentUnsatisfiable),
            Some((s, a)) => {
                let block = Region { start: ptr, size: s };
                if ptr % a != 0 || ptr < lo || block.spec_end() > hi {
                    Err(HeapError::ForeignPointer)
                } else if exists|i: int| 0 <= i < nodes.len() && (#[trigger] nodes[i]).overlaps(block) {
                    Err(HeapError::DoubleFree)
                } else {
                    Ok(block)
                }
            },
        }
    }
}

/// What `deallocate` returns on the free list `nodes`, and the list
/// afterwards: a block that is accepted goes to the head.
pub open spec fn deallocation(
    nodes: Seq<Region>,
    lo: int,
    hi: int,
    ptr: u64,
    size: u64,
    align: u64,
) -> (Result<(), HeapError>, Seq<Region>) {
    match release(nodes, lo, hi, ptr, size, align) {
        Ok(block) => (Ok(()), seq![block] + nodes),
        Err(e) => (Err(e), nodes),
    }
}

/// The number of free bytes on the list.
pub open spec fn free_bytes(nodes: Seq<Region>) -> int
    decreases nodes.len(),
{
    if nodes.len() == 0 {
        0
    } else {
        nodes[0].size + free_bytes(nodes.skip(1))
    }
}

/// Whether `nodes` can be the free list of a heap from `lo` to `hi`: every
/// block lies in the heap and can hold a record, and no two blocks overlap.
pub open spec fn list_ok(nodes: Seq<Region>, lo: int, hi: int) -> bool {
    &&& forall|i: int| 0 <= i < nodes.len() ==> (#[trigger] nodes[i]).free_in(lo, hi)
    &&& forall|i: int, j: int|
        0 <= i < nodes.len() && 0 <= j < nodes.len() && i != j ==> !(#[trigger] nodes[i]).overlaps(
            #[trigger] nodes[j],
        )
}

/// Whether the address lies in none of the blocks.
pub open spec fn outside(blocks: Seq<Region>, addr: int) -> bool {
    forall|i: int|
        0 <= i < blocks.len() ==> !((#[trigger] blocks[i]).start <= addr < blocks[i].spec_end())
}

/// The address in the record of block `i`: the start of the next block, or
/// null at the end of the list.
pub open spec fn next_of(nodes: Seq<Region>, i: int) -> u64 {
    if i + 1 < nodes.len() {
        nodes[i + 1].start
    } else {
        0
    }
}

/// The start of the first block, or null for the empty list.
pub open spec fn head_of(nodes: Seq<Region>) -> u64 {
    if nodes.len() > 0 {
        nodes[0].start
    } else {
        0
    }
}

/// What holds of a padded request.
pub proof fn lemma_padded(size: u64, align: u64)
    requires
        padded(size, align) is Some,
    ensures
        ({
            let (s, a) = padded(size, align).unwrap();
            &&& is_pow2(a as int)
            &&& a >= REGION_ALIGN
            &&& a >= align
            &&& a % REGION_ALIGN == 0
            &&& s % REGION_ALIGN == 0
            &&& REGION_SIZE <= s <= MAX_LAYOUT_SIZE
            &&& size <= s
        }),
{
    let (s, a) = padded(size, align).unwrap();
    lemma_region_align_is_pow2();
    crate::addr::lemma_one_bit_is_pow2(a);
    crate::addr::lemma_ceil_to(size as int, a as int);
    let c = ceil_to(size as int, a as int);
    vstd::arithmetic::div_mod::lemma_mod_self_0(a as int);
    crate::addr::lemma_aligned_to_smaller(a as int, a, REGION_ALIGN);
    crate::addr::lemma_aligned_to_smaller(c, a, REGION_ALIGN);
}

/// 8 is a power of two.
pub proof fn lemma_region_align_is_pow2()
    ensures
        is_pow2(REGION_ALIGN as int),
{
    reveal_with_fuel(is_pow2, 5);
}

/// The padded size and alignment of a request; see `padded`.
pub fn size_align(size: u64, align: u64) -> (r: Option<(u64, u64)>)
    ensures
        r == padded(size, align),
{
    if !is_power_of_two(align) {
        return None;
    }
    let a = if align < REGION_ALIGN {
        REGION_ALIGN
    } else {
        align
    };
    if a - 1 > MAX_LAYOUT_SIZE || size > MAX_LAYOUT_SIZE - (a - 1) {
        return None;
    }
    proof {
        lemma_region_align_is_pow2();
    }
    let s = size.align_up(a);
    Some((if s < REGION_SIZE {
        REGION_SIZE
    } else {
        s
    }, a))
}

/// Where in `region` a block of `size` bytes aligned on `align` starts, if
/// `region` can serve it; see `fit`.
pub fn can_alloc(region: &Region, size: u64, align: u64) -> (r: Option<u64>)
    requires
        is_pow2(align as int),
        region.spec_end() <= u64::MAX,
    ensures
        r == fit(*region, size, align),
{
    proof {
        crate::addr::lemma_one_bit_is_pow2(align);
        crate::addr::lemma_ceil_to(region.start as int, align as int);
        if region.start + align - 1 > u64::MAX {
            crate::addr::lemma_ceil_overflows(region.start, align);
        }
    }
    let begin = match region.begin().checked_align_up(align) {
        Some(begin) => begin,
        None => {
            return None;
        },
    };
    let end = match begin.checked_add(size) {
        Some(end) => end,
        None => {
            return None;
        },
    };
    if end > region.end() {
        return None;
    }
    let excess = region.end() - end;
    if excess > 0 && excess < REGION_SIZE {
        // What is left behind could not hold a record, and would be lost.
        return None;
    }
    Some(begin)
}

/// The first-fit allocator of the kernel heap.
pub struct FFAlloc {
    /// The address of the heap's first byte; zero while there is no heap.
    base: u64,
    /// The address after the heap's last byte.
    limit: u64,
    /// The heap, as words of eight bytes from `base` on.
    mem: Vec<u64>,
    /// The address of the first free block, or null.
    free_list: u64,
    /// The free blocks in the order of the list.
    nodes: Ghost<Seq<Region>>,
}

impl FFAlloc {
    /// The free list: the free blocks, first one first.
    pub closed spec fn view(&self) -> Seq<Region> {
        self.nodes@
    }

    /// The address of the heap's first byte.
    pub closed spec fn heap_start(&self) -> int {
        self.base as int
    }

    /// The address after the heap's last byte.
    pub closed spec fn heap_end(&self) -> int {
        self.limit as int
    }

    /// The index of the word at the address `addr`.
    spec fn slot(&self, addr: int) -> int {
        (addr - self.base) / 8
    }

    /// Whether the words of the free blocks hold the list: each block's
    /// record names the next block and the block's size.
    spec fn linked(&self) -> bool {
        forall|i: int| 0 <= i < self.nodes@.len() ==> #[trigger] self.record_ok(i)
    }

    /// Whether the record of block `i` names the next block and the block's
    /// size.
    spec fn record_ok(&self, i: int) -> bool {
        &&& self.mem@[self.slot(self.nodes@[i].start as int)] == next_of(self.nodes@, i)
        &&& self.mem@[self.slot(self.nodes@[i].start as int) + 1] == self.nodes@[i].size
    }

    /// The allocator's invariant: the free list is one that the heap can
    /// have, and the words of the heap hold it.
    pub closed spec fn wf(&self) -> bool {
        &&& self.base % REGION_ALIGN == 0
        &&& self.base <= self.limit
        &&& self.base == 0 ==> self.limit == 0
        &&& self.mem@.len() == (self.limit - self.base) / 8
        &&& list_ok(self.nodes@, self.base as int, self.limit as int)
        &&& self.free_list == head_of(self.nodes@)
        &&& self.linked()
    }

    /// Whether `addr` is the address of a word of the heap.
    pub closed spec fn is_word(&self, addr: int) -> bool {
        self.base <= addr && addr + 8 <= self.limit && addr % 8 == 0
    }

    /// The word of the heap at the address `addr`.
    pub closed spec fn word_at(&self, addr: int) -> u64 {
        self.mem@[self.slot(addr)]
    }

    /// Whether the allocator has written to no word outside `blocks` since
    /// it was `before`: every word of the heap that lies in none of the
    /// blocks is what it was.
    pub open spec fn only_wrote(&self, before: Self, blocks: Seq<Region>) -> bool {
        forall|addr: int|
            before.is_word(addr) && outside(blocks, addr) ==> #[trigger] self.word_at(addr)
                == before.word_at(addr)
    }

    /// Whether `init` has given the allocator its heap.
    pub closed spec fn is_init(&self) -> bool {
        self.base != 0
    }

    /// A well-formed allocator has a free list that its heap can have.
    pub proof fn lemma_wf(&self)
        requires
            self.wf(),
        ensures
            list_ok(self@, self.heap_start(), self.heap_end()),
            0 <= self.heap_start() <= self.heap_end() <= u64::MAX,
            !self.is_init() ==> self@.len() == 0 && self.heap_end() == 0,
    {
        if !self.is_init() && self.nodes@.len() > 0 {
            assert(self.nodes@[0].free_in(self.base as int, self.limit as int));
        }
    }

    /// Where the record of a block that can be free lies among the words.
    proof fn lemma_slot(&self, node: Region)
        requires
            self.base % REGION_ALIGN == 0,
            self.base <= self.limit,
            self.mem@.len() == (self.limit - self.base) / 8,
            node.free_in(self.base as int, self.limit as int),
        ensures
            0 <= self.slot(node.start as int),
            self.slot(node.start as int) + 2 <= self.mem@.len() == self.mem.len() <= usize::MAX,
            8 * self.slot(node.start as int) == node.start - self.base,
            self.base > 0 ==> node.start > 0,
    {
    }

    /// Where a word of the heap lies among the words.
    proof fn lemma_word_slot(&self, addr: int)
        requires
            self.base % REGION_ALIGN == 0,
            self.mem@.len() == (self.limit - self.base) / 8,
            self.is_word(addr),
        ensures
            0 <= self.slot(addr) < self.mem@.len() == self.mem.len() <= usize::MAX,
    {
    }

    /// The records of two blocks that do not overlap share no word.
    proof fn lemma_slots_apart(&self, a: Region, b: Region)
        requires
            self.base % REGION_ALIGN == 0,
            self.base <= self.limit,
            self.mem@.len() == (self.limit - self.base) / 8,
            a.free_in(self.base as int, self.limit as int),
            b.free_in(self.base as int, self.limit as int),
            !a.overlaps(b),
        ensures
            self.slot(a.start as int) + 2 <= self.slot(b.start as int) || self.slot(
                b.start as int,
            ) + 2 <= self.slot(a.start as int),
    {
        self.lemma_slot(a);
        self.lemma_slot(b);
    }

    /// Reads the record of the free block at `addr`, which is block `at` of
    /// the list: the address of the next block, and the block's size.
    fn read_node(&self, addr: u64, Ghost(at): Ghost<int>) -> (r: (u64, u64))
        requires
            self.wf(),
            0 <= at < self.nodes@.len(),
            addr == self.nodes@[at].start,
        ensures
            r.0 == next_of(self.nodes@, at),
            r.1 == self.nodes@[at].size,
            addr + r.1 <= self.limit,
    {
        proof {
            assert(self.nodes@[at].free_in(self.base as int, self.limit as int));
            self.lemma_slot(self.nodes@[at]);
            assert(self.record_ok(at));
        }
        let k = ((addr - self.base) / 8) as usize;
        (self.mem[k], self.mem[k + 1])
    }

    /// A block that overlaps none of the blocks written to keeps its words.
    /// So a block in use keeps them over every allocation, which writes to
    /// free blocks only, and over the deallocation of any other block.
    pub proof fn lemma_block_keeps_its_words(
        &self,
        before: Self,
        blocks: Seq<Region>,
        used: Region,
        addr: int,
    )
        requires
            self.only_wrote(before, blocks),
            forall|i: int| 0 <= i < blocks.len() ==> !(#[trigger] blocks[i]).overlaps(used),
            before.is_word(addr),
            used.start <= addr < used.spec_end(),
        ensures
            self.word_at(addr) == before.word_at(addr),
    {
    }

    /// An allocator without a heap: every allocation fails until `init`.
    pub fn new() -> (r: Self)
        ensures
            r.wf(),
            !r.is_init(),
            r@ == Seq::<Region>::empty(),
            r.heap_start() == 0,
            r.heap_end() == 0,
    {
        FFAlloc { base: 0, limit: 0, mem: Vec::new(), free_list: 0, nodes: Ghost(Seq::empty()) }
    }

    /// Whether `init` has given the allocator its heap.
    pub fn initialized(&self) -> (r: bool)
        ensures
            r == self.is_init(),
    {
        self.base != 0
    }

    /// Gives the allocator the heap of `size` bytes at `addr`, all of it one
    /// free block. The allocator makes the buffer that stands for the heap.
    pub fn init(&mut self, addr: u64, size: u64)
        requires
            old(self).wf(),
            !old(self).is_init(),
            addr > 0,
            addr % REGION_ALIGN == 0,
            size >= REGION_SIZE,
            addr + size <= u64::MAX,
            size / 8 <= usize::MAX,
        ensures
            final(self).wf(),
            final(self).is_init(),
            final(self)@ == seq![block(addr, size)],
            final(self).heap_start() == addr,
            final(self).heap_end() == addr + size,
    {
        let words = vec![0u64; (size / 8) as usize];
        self.adopt(addr, size, words);
    }

    /// Gives the allocator the heap at `addr` that `words` holds, eight bytes
    /// to the word, all of it one free block.
    pub fn init_with(&mut self, addr: u64, words: Vec<u64>)
        requires
            old(self).wf(),
            !old(self).is_init(),
            addr > 0,
            addr % REGION_ALIGN == 0,
            words.len() >= 2,
            addr + 8 * words.len() <= u64::MAX,
        ensures
            final(self).wf(),
            final(self).is_init(),
            final(self)@ == seq![block(addr, (8 * words.len()) as u64)],
            final(self).heap_start() == addr,
            final(self).heap_end() == addr + 8 * words.len(),
    {
        let size = 8 * (words.len() as u64);
        self.adopt(addr, size, words);
    }

    /// Takes `words` as the heap of `size` bytes at `addr`.
    fn adopt(&mut self, addr: u64, size: u64, words: Vec<u64>)
        requires
            old(self).wf(),
            !old(self).is_init(),
            addr > 0,
            addr % REGION_ALIGN == 0,
            size >= REGION_SIZE,
            addr + size <= u64::MAX,
            words.len() == size / 8,
        ensures
            final(self).wf(),
            final(self).is_init(),
            final(self)@ == seq![block(addr, size)],
            final(self).heap_start() == addr,
            final(self).heap_end() == addr + size,
    {
        proof {
            old(self).lemma_wf();
        }
        self.base = addr;
        self.limit = addr + size;
        self.mem = words;
        self.free_list = Region::null();
        self.nodes = Ghost(Seq::empty());
        self.add_free_region(addr, size);
        proof {
            assert(self.nodes@ =~= seq![Region { start: addr, size }]);
        }
    }

    /// Puts the block of `size` bytes at `addr` at the head of the free
    /// list, by writing its record into its first two words.
    fn add_free_region(&mut self, addr: u64, size: u64)
        requires
            old(self).wf(),
            block(addr, size).free_in(old(self).heap_start(), old(self).heap_end()),
            forall|i: int|
                0 <= i < old(self)@.len() ==> !(#[trigger] old(self)@[i]).overlaps(block(addr, size)),
        ensures
            final(self).wf(),
            final(self)@ == seq![block(addr, size)] + old(self)@,
            final(self).heap_start() == old(self).heap_start(),
            final(self).heap_end() == old(self).heap_end(),
            final(self).only_wrote(*old(self), seq![block(addr, size)]),
    {
        let ghost blk = block(addr, size);
        let ghost before = self.nodes@;
        let ghost after = seq![blk] + before;
        proof {
            self.lemma_slot(blk);
        }
        let k = ((addr - self.base) / 8) as usize;
        self.mem.set(k, self.free_list);
        self.mem.set(k + 1, size);
        self.free_list = addr;
        self.nodes = Ghost(after);
        proof {
            assert forall|i: int| 0 <= i < after.len() implies (#[trigger] after[i]).free_in(
                self.base as int,
                self.limit as int,
            ) by {
                if i > 0 {
                    assert(after[i] == before[i - 1]);
                }
            }
            assert forall|i: int, j: int|
                0 <= i < after.len() && 0 <= j < after.len() && i != j implies !(
                #[trigger] after[i]).overlaps(#[trigger] after[j]) by {
                if i > 0 {
                    assert(after[i] == old(self)@[i - 1]);
                }
                if j > 0 {
                    assert(after[j] == old(self)@[j - 1]);
                }
            }
            assert forall|i: int| 0 <= i < after.len() implies #[trigger] self.record_ok(i) by {
                if i > 0 {
                    let node = before[i - 1];
                    assert(after[i] == node);
                    assert(node == old(self)@[i - 1]);
                    assert(node.free_in(self.base as int, self.limit as int));
                    assert(!node.overlaps(blk));
                    self.lemma_slots_apart(node, blk);
                    assert(next_of(after, i) == next_of(before, i - 1));
                    assert(old(self).record_ok(i - 1));
                } else {
                    assert(next_of(after, 0) == head_of(before));
                }
            }
            self.lemma_wrote_record(*old(self), seq![blk], 0);
        }
    }

    /// Takes the first free block that can serve the request off the list.
    /// Returned are the block and the address inside it at which the
    /// allocation starts.
    fn pop_region(&mut self, size: u64, align: u64) -> (r: Option<(Region, u64)>)
        requires
            old(self).wf(),
            is_pow2(align as int),
        ensures
            final(self).wf(),
            final(self).heap_start() == old(self).heap_start(),
            final(self).heap_end() == old(self).heap_end(),
            final(self).only_wrote(*old(self), old(self)@),
            match r {
                Some((region, begin)) => {
                    &&& first_fit(old(self)@, size, align) is Some
                    &&& region == old(self)@[first_fit(old(self)@, size, align).unwrap()]
                    &&& Some(begin) == fit(region, size, align)
                    &&& final(self)@ == old(self)@.remove(
                        first_fit(old(self)@, size, align).unwrap(),
                    )
                },
                None => first_fit(old(self)@, size, align) is None && final(self)@ == old(self)@,
            },
    {
        let ghost nodes = self.nodes@;
        let mut prev: u64 = Region::null();
        let mut cur: u64 = self.free_list;
        let ghost mut at: int = 0;
        while cur != Region::null()
            invariant
                self.wf(),
                *self == *old(self),
                nodes == self.nodes@,
                is_pow2(align as int),
                0 <= at <= nodes.len(),
                cur == (if at < nodes.len() {
                    nodes[at].start
                } else {
                    0
                }),
                prev == (if at > 0 {
                    nodes[at - 1].start
                } else {
                    0
                }),
                forall|j: int| 0 <= j < at ==> fit(#[trigger] nodes[j], size, align) is None,
            decreases nodes.len() - at,
        {
            proof {
                self.lemma_cursor(cur, at);
            }
            let (next, node_size) = self.read_node(cur, Ghost(at));
            let region = Region { start: cur, size: node_size };
            match can_alloc(&region, size, align) {
                Some(begin) => {
                    if prev == Region::null() {
                        self.free_list = next;
                    } else {
                        proof {
                            assert(nodes[at - 1].free_in(self.base as int, self.limit as int));
                            self.lemma_slot(nodes[at - 1]);
                        }
                        let p = ((prev - self.base) / 8) as usize;
                        self.mem.set(p, next);
                    }
                    self.nodes = Ghost(nodes.remove(at));
                    proof {
                        lemma_first_fit_unique(nodes, size, align, at);
                        self.lemma_unlinked(*old(self), at);
                        if at > 0 {
                            self.lemma_wrote_record(*old(self), nodes, at - 1);
                        }
                    }
                    return Some((region, begin));
                },
                None => {
                    prev = cur;
                    cur = next;
                    proof {
                        at = at + 1;
                    }
                },
            }
        }
        proof {
            lemma_no_fit(nodes, size, align);
        }
        None
    }

    /// An allocator that differs from `before` in the record of one block
    /// only has written to no word outside that block.
    proof fn lemma_wrote_record(&self, before: Self, blocks: Seq<Region>, at: int)
        requires
            before.base % REGION_ALIGN == 0,
            before.base <= before.limit,
            before.mem@.len() == (before.limit - before.base) / 8,
            self.base == before.base,
            self.limit == before.limit,
            self.mem@.len() == before.mem@.len(),
            0 <= at < blocks.len(),
            blocks[at].free_in(before.base as int, before.limit as int),
            forall|k: int|
                0 <= k < before.mem@.len() && k != before.slot(blocks[at].start as int) && k
                    != before.slot(blocks[at].start as int) + 1 ==> self.mem@[k] == before.mem@[k],
        ensures
            self.only_wrote(before, blocks),
    {
        before.lemma_slot(blocks[at]);
        assert forall|addr: int|
            before.is_word(addr) && outside(blocks, addr) implies #[trigger] self.word_at(addr)
            == before.word_at(addr) by {
            assert(!(blocks[at].start <= addr < blocks[at].spec_end()));
        }
    }

    /// A cursor that is not null stands on a block of the list.
    proof fn lemma_cursor(&self, cur: u64, at: int)
        requires
            self.wf(),
            0 <= at <= self.nodes@.len(),
            cur != 0,
            cur == (if at < self.nodes@.len() {
                self.nodes@[at].start
            } else {
                0
            }),
        ensures
            at < self.nodes@.len(),
            self.nodes@[at].free_in(self.base as int, self.limit as int),
    {
    }

    /// Taking block `at` out of the list, by pointing the link before it at
    /// the block after it, leaves a well-formed allocator.
    proof fn lemma_unlinked(&self, before: Self, at: int)
        requires
            before.wf(),
            0 <= at < before.nodes@.len(),
            self.base == before.base,
            self.limit == before.limit,
            self.nodes@ == before.nodes@.remove(at),
            at == 0 ==> self.mem@ == before.mem@ && self.free_list == next_of(before.nodes@, 0),
            at > 0 ==> self.free_list == before.free_list && self.mem@ == before.mem@.update(
                before.slot(before.nodes@[at - 1].start as int),
                next_of(before.nodes@, at),
            ),
        ensures
            self.wf(),
    {
        let old_nodes = before.nodes@;
        let nodes = self.nodes@;
        let lo = self.base as int;
        let hi = self.limit as int;
        lemma_remove_keeps_list_ok(old_nodes, lo, hi, at);
        assert forall|i: int| 0 <= i < nodes.len() implies #[trigger] self.record_ok(i) by {
            let oi = if i < at {
                i
            } else {
                i + 1
            };
            let node = old_nodes[oi];
            assert(nodes[i] == node);
            assert(node.free_in(lo, hi));
            assert(before.record_ok(oi));
            before.lemma_slot(node);
            lemma_next_of_remove(old_nodes, at, i);
            if at > 0 {
                let prev = old_nodes[at - 1];
                assert(prev.free_in(lo, hi));
                before.lemma_slot(prev);
                if oi != at - 1 {
                    assert(!node.overlaps(prev));
                    before.lemma_slots_apart(node, prev);
                }
            }
        }
    }

    /// Hands out a block of at least `size` bytes aligned on `align`, and
    /// returns its address.
    ///
    /// The request is padded as `padded` says, and served by the first block
    /// of the free list that can hold the padded request and leave behind
    /// nothing, or room for a record. That block leaves the list; what is
    /// left of it behind the allocation goes to the head of the list. Where
    /// no block can serve, the list stays as it is.
    pub fn allocate(&mut self, size: u64, align: u64) -> (r: Result<u64, HeapError>)
        requires
            old(self).wf(),
        ensures
            final(self).wf(),
            final(self).heap_start() == old(self).heap_start(),
            final(self).heap_end() == old(self).heap_end(),
            (r, final(self)@) == allocation(old(self)@, size, align),
            final(self).only_wrote(*old(self), old(self)@),
    {
        let ghost asked = (size, align);
        let (size, align) = match size_align(size, align) {
            Some(padded) => padded,
            None => {
                return Err(HeapError::AlignmentUnsatisfiable);
            },
        };
        proof {
            lemma_padded(asked.0, asked.1);
        }
        let ghost before = self.nodes@;
        match self.pop_region(size, align) {
            Some((region, begin)) => {
                let ghost at = first_fit(before, size, align).unwrap();
                proof {
                    old(self).lemma_wf();
                    assert(region.free_in(self.base as int, self.limit as int));
                    lemma_fit_inside(region, size, align);
                }
                let end = begin + size;
                let excess = region.end() - end;
                if excess > 0 {
                    proof {
                        assert forall|i: int| 0 <= i < self@.len() implies !(
                        #[trigger] self@[i]).overlaps(Region { start: end, size: excess }) by {
                            let j = if i < at {
                                i
                            } else {
                                i + 1
                            };
                            assert(self@[i] == before[j]);
                            assert(!before[j].overlaps(before[at]));
                        }
                    }
                    let ghost popped = *self;
                    self.add_free_region(end, excess);
                    proof {
                        assert forall|addr: int|
                            old(self).is_word(addr) && outside(before, addr) implies #[trigger]
                            self.word_at(addr) == old(self).word_at(addr) by {
                            assert(!(before[at].start <= addr < before[at].spec_end()));
                            assert(seq![block(end, excess)][0] == block(end, excess));
                            assert(outside(seq![block(end, excess)], addr));
                            assert(popped.is_word(addr));
                            assert(popped.word_at(addr) == old(self).word_at(addr));
                        }
                    }
                }
                Ok(begin)
            },
            None => Err(HeapError::HeapExhausted),
        }
    }

    /// Takes back the block at `ptr` that was handed out for `size` and
    /// `align`, and puts it at the head of the free list.
    ///
    /// The block is turned down, and the list stays as it is, where `ptr`
    /// is null, where the request cannot be padded, where the block is not
    /// aligned as padded or does not lie in the heap, and where it overlaps a
    /// block that is free: handing a block back twice is such a case.
    pub fn deallocate(&mut self, ptr: u64, size: u64, align: u64) -> (r: Result<(), HeapError>)
        requires
            old(self).wf(),
        ensures
            final(self).wf(),
            final(self).heap_start() == old(self).heap_start(),
            final(self).heap_end() == old(self).heap_end(),
            (r, final(self)@) == deallocation(
                old(self)@,
                old(self).heap_start(),
                old(self).heap_end(),
                ptr,
                size,
                align,
            ),
            final(self).only_wrote(
                *old(self),
                match r {
                    Ok(_) => seq![final(self)@[0]],
                    Err(_) => Seq::empty(),
                },
            ),
    {
        if ptr == Region::null() {
            return Err(HeapError::NullPointer);
        }
        let ghost asked = (size, align);
        let (size, align) = match size_align(size, align) {
            Some(padded) => padded,
            None => {
                return Err(HeapError::AlignmentUnsatisfiable);
            },
        };
        proof {
            lemma_padded(asked.0, asked.1);
            self.lemma_wf();
        }
        if ptr % align != 0 || ptr < self.base || ptr > self.limit || size > self.limit - ptr {
            return Err(HeapError::ForeignPointer);
        }
        if self.overlaps_free(ptr, size) {
            return Err(HeapError::DoubleFree);
        }
        proof {
            lemma_padded_block(ptr, size, align);
        }
        self.free_region(ptr, size);
        Ok(())
    }

    /// Whether the block of `size` bytes at `ptr` overlaps a free block.
    fn overlaps_free(&self, ptr: u64, size: u64) -> (r: bool)
        requires
            self.wf(),
            ptr + size <= u64::MAX,
        ensures
            r == exists|i: int|
                0 <= i < self@.len() && (#[trigger] self@[i]).overlaps(block(ptr, size)),
    {
        let ghost nodes = self.nodes@;
        let ghost blk = block(ptr, size);
        let mut cur: u64 = self.free_list;
        let ghost mut at: int = 0;
        while cur != Region::null()
            invariant
                self.wf(),
                nodes == self.nodes@,
                blk == block(ptr, size),
                ptr + size <= u64::MAX,
                0 <= at <= nodes.len(),
                cur == (if at < nodes.len() {
                    nodes[at].start
                } else {
                    0
                }),
                forall|j: int| 0 <= j < at ==> !(#[trigger] nodes[j]).overlaps(blk),
            decreases nodes.len() - at,
        {
            proof {
                self.lemma_cursor(cur, at);
            }
            let (next, node_size) = self.read_node(cur, Ghost(at));
            if cur < ptr + size && ptr < cur + node_size {
                assert(self@[at].overlaps(block(ptr, size)));
                return true;
            }
            cur = next;
            proof {
                at = at + 1;
            }
        }
        false
    }

    /// The word of the heap at the address `addr`; `None` where `addr` is
    /// not the address of a word of the heap.
    pub fn load(&self, addr: u64) -> (r: Option<u64>)
        requires
            self.wf(),
        ensures
            r == (if self.is_word(addr as int) {
                Some(self.word_at(addr as int))
            } else {
                None
            }),
    {
        if addr < self.base || addr > self.limit || self.limit - addr < 8 || addr % 8 != 0 {
            return None;
        }
        proof {
            self.lemma_word_slot(addr as int);
        }
        let k = ((addr - self.base) / 8) as usize;
        Some(self.mem[k])
    }

    /// Writes `value` to the word of the heap at the address `addr`, and
    /// says whether it did: the free blocks are the allocator's own, and a
    /// word that lies in one of them, or is no word of the heap, is not
    /// written.
    pub fn store(&mut self, addr: u64, value: u64) -> (r: bool)
        requires
            old(self).wf(),
        ensures
            final(self).wf(),
            final(self)@ == old(self)@,
            final(self).heap_start() == old(self).heap_start(),
            final(self).heap_end() == old(self).heap_end(),
            r == (old(self).is_word(addr as int) && outside(old(self)@, addr as int)),
            r ==> final(self).word_at(addr as int) == value,
            forall|other: int|
                old(self).is_word(other) && (other != addr || !r) ==> final(self).word_at(other)
                    == #[trigger] old(self).word_at(other),
    {
        if addr < self.base || addr > self.limit || self.limit - addr < 8 || addr % 8 != 0 {
            return false;
        }
        if self.overlaps_free(addr, 8) {
            proof {
                let i = choose|i: int|
                    0 <= i < self@.len() && (#[trigger] self@[i]).overlaps(block(addr, 8));
                assert(self@[i].free_in(self.base as int, self.limit as int));
                assert(self@[i].start <= addr < self@[i].spec_end());
            }
            return false;
        }
        proof {
            self.lemma_word_slot(addr as int);
        }
        let k = ((addr - self.base) / 8) as usize;
        self.mem.set(k, value);
        proof {
            let nodes = self.nodes@;
            assert forall|i: int| 0 <= i < nodes.len() implies !(#[trigger] nodes[i].start <= addr
                < nodes[i].spec_end()) by {
                assert(!old(self)@[i].overlaps(block(addr, 8)));
                assert(nodes[i].free_in(self.base as int, self.limit as int));
            }
            assert forall|i: int| 0 <= i < nodes.len() implies #[trigger] self.record_ok(i) by {
                assert(old(self).record_ok(i));
                assert(nodes[i].free_in(self.base as int, self.limit as int));
                self.lemma_slot(nodes[i]);
                assert(!(nodes[i].start <= addr < nodes[i].spec_end()));
            }
        }
        true
    }

    /// The free blocks, in the order of the list.
    pub fn free_list(&self) -> (r: Vec<Region>)
        requires
            self.wf(),
        ensures
            r@ == self@,
    {
        let ghost nodes = self.nodes@;
        let mut out: Vec<Region> = Vec::new();
        let mut cur: u64 = self.free_list;
        let ghost mut at: int = 0;
        while cur != Region::null()
            invariant
                self.wf(),
                nodes == self.nodes@,
                0 <= at <= nodes.len(),
                cur == (if at < nodes.len() {
                    nodes[at].start
                } else {
                    0
                }),
                out@ == nodes.subrange(0, at),
            decreases nodes.len() - at,
        {
            proof {
                self.lemma_cursor(cur, at);
            }
            let (next, node_size) = self.read_node(cur, Ghost(at));
            out.push(Region { start: cur, size: node_size });
            proof {
                assert(out@ =~= nodes.subrange(0, at + 1));
                at = at + 1;
            }
            cur = next;
        }
        proof {
            if at < nodes.len() {
                assert(nodes[at].free_in(self.base as int, self.limit as int));
                self.lemma_slot(nodes[at]);
            }
            assert(out@ =~= nodes);
        }
        out
    }

    /// Puts the block of `size` bytes at `ptr` back on the free list.
    fn free_region(&mut self, ptr: u64, size: u64)
        requires
            old(self).wf(),
            block(ptr, size).free_in(old(self).heap_start(), old(self).heap_end()),
            forall|i: int|
                0 <= i < old(self)@.len() ==> !(#[trigger] old(self)@[i]).overlaps(block(ptr, size)),
        ensures
            final(self).wf(),
            final(self)@ == seq![block(ptr, size)] + old(self)@,
            final(self).heap_start() == old(self).heap_start(),
            final(self).heap_end() == old(self).heap_end(),
            final(self).only_wrote(*old(self), seq![block(ptr, size)]),
    {
        self.add_free_region(ptr, size);
    }
}

/// A block that a free block can serve lies inside it, at a place where a
/// record can be written behind it.
pub proof fn lemma_fit_inside(node: Region, size: u64, align: u64)
    requires
        fit(node, size, align) is Some,
        node.spec_end() <= u64::MAX,
        is_pow2(align as int),
        align % REGION_ALIGN == 0,
        size % REGION_ALIGN == 0,
    ensures
        ({
            let begin = fit(node, size, align).unwrap();
            &&& node.start <= begin
            &&& begin + size <= node.spec_end()
            &&& begin % align == 0
            &&& begin % REGION_ALIGN == 0
            &&& (begin + size) % (REGION_ALIGN as int) == 0
            &&& begin == ceil_to(node.start as int, align as int)
        }),
{
    crate::addr::lemma_one_bit_is_pow2(align);
    crate::addr::lemma_ceil_to(node.start as int, align as int);
    let begin = ceil_to(node.start as int, align as int);
    lemma_region_align_is_pow2();
    crate::addr::lemma_aligned_to_smaller(begin, align, REGION_ALIGN);
    crate::addr::lemma_aligned_sum(begin, size as int, REGION_ALIGN as int);
}

/// A block at an address aligned as its padded layout says can hold a
/// record.
pub proof fn lemma_padded_block(ptr: u64, size: u64, align: u64)
    requires
        is_pow2(align as int),
        align >= REGION_ALIGN,
        ptr % align == 0,
    ensures
        ptr % REGION_ALIGN == 0,
{
    lemma_region_align_is_pow2();
    crate::addr::lemma_aligned_to_smaller(ptr as int, align, REGION_ALIGN);
}

/// A list without one of its blocks is still one that the heap can have.
pub proof fn lemma_remove_keeps_list_ok(nodes: Seq<Region>, lo: int, hi: int, at: int)
    requires
        list_ok(nodes, lo, hi),
        0 <= at < nodes.len(),
    ensures
        list_ok(nodes.remove(at), lo, hi),
{
    let rest = nodes.remove(at);
    assert forall|i: int| 0 <= i < rest.len() implies (#[trigger] rest[i]).free_in(lo, hi) by {
        if i < at {
            assert(rest[i] == nodes[i]);
        } else {
            assert(rest[i] == nodes[i + 1]);
        }
    }
    assert forall|i: int, j: int|
        0 <= i < rest.len() && 0 <= j < rest.len() && i != j implies !(#[trigger] rest[i]).overlaps(
        #[trigger] rest[j],
    ) by {
        let oi = if i < at {
            i
        } else {
            i + 1
        };
        let oj = if j < at {
            j
        } else {
            j + 1
        };
        assert(rest[i] == nodes[oi]);
        assert(rest[j] == nodes[oj]);
    }
}

/// The link of block `i` once block `at` has left the list: the block before
/// `at` is linked to the one after it, every other link is as it was.
pub proof fn lemma_next_of_remove(nodes: Seq<Region>, at: int, i: int)
    requires
        0 <= at < nodes.len(),
        0 <= i < nodes.len() - 1,
    ensures
        next_of(nodes.remove(at), i) == (if i + 1 == at {
            next_of(nodes, at)
        } else if i < at {
            next_of(nodes, i)
        } else {
            next_of(nodes, i + 1)
        }),
{
    let rest = nodes.remove(at);
    if i + 1 < rest.len() {
        if i + 1 < at {
            assert(rest[i + 1] == nodes[i + 1]);
        } else {
            assert(rest[i + 1] == nodes[i + 2]);
        }
    }
}

/// Only one block is the first that fits.
pub proof fn lemma_first_fit_unique(nodes: Seq<Region>, size: u64, align: u64, i: int)
    requires
        is_first_fit(nodes, size, align, i),
    ensures
        first_fit(nodes, size, align) == Some(i),
{
    let k = choose|k: int| is_first_fit(nodes, size, align, k);
    if k < i {
        assert(fit(nodes[k], size, align) is None);
    } else if i < k {
        assert(fit(nodes[i], size, align) is None);
    }
}

/// Where no block fits, none is the first that fits.
pub proof fn lemma_no_fit(nodes: Seq<Region>, size: u64, align: u64)
    requires
        forall|j: int| 0 <= j < nodes.len() ==> fit(#[trigger] nodes[j], size, align) is None,
    ensures
        first_fit(nodes, size, align) is None,
{
}

} // verus!
