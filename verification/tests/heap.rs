use kernel::heap::ffallocator::can_alloc;
use kernel::heap::ffallocator::size_align;
use kernel::heap::ffallocator::FFAlloc;
use kernel::heap::ffallocator::HeapError;
use kernel::heap::ffallocator::Region;
use rand::Rng;

fn heap_at(base: u64, size: u64) -> FFAlloc {
    let mut heap = FFAlloc::new();
    heap.init(base, size);
    heap
}

fn free_bytes(heap: &FFAlloc) -> u64 {
    heap.free_list().iter().map(|r| r.size).sum()
}

fn overlap(a: (u64, u64), b: (u64, u64)) -> bool {
    a.0 < b.0 + b.1 && b.0 < a.0 + a.1
}

#[test]
fn a_new_heap_has_no_memory() {
    let mut heap = FFAlloc::new();
    assert!(!heap.initialized());
    assert!(heap.free_list().is_empty());
    assert_eq!(heap.allocate(8, 8), Err(HeapError::HeapExhausted));
    assert_eq!(heap.deallocate(0x1000, 8, 8), Err(HeapError::ForeignPointer));
}

#[test]
fn init_makes_one_free_block() {
    let heap = heap_at(0x1000, 4096);
    assert!(heap.initialized());
    assert_eq!(heap.free_list(), vec![Region { start: 0x1000, size: 4096 }]);
}

#[test]
fn init_with_takes_the_words_it_is_given() {
    let mut heap = FFAlloc::new();
    heap.init_with(0x2000, vec![0xdead_beef_u64; 64]);
    assert_eq!(heap.free_list(), vec![Region { start: 0x2000, size: 512 }]);
    assert_eq!(heap.allocate(512, 8), Ok(0x2000));
    assert!(heap.free_list().is_empty());
}

#[test]
fn allocate_then_exhaust() {
    let mut heap = heap_at(0x1000, 4096);
    let first = heap.allocate(64, 8).unwrap();
    assert!(0x1000 <= first && first < 0x1000 + 4096);
    assert_eq!(first, 0x1000);
    assert_eq!(heap.free_list(), vec![Region { start: 0x1040, size: 4032 }]);
    assert_eq!(heap.allocate(4096, 8), Err(HeapError::HeapExhausted));
    assert_eq!(heap.free_list(), vec![Region { start: 0x1040, size: 4032 }]);
}

#[test]
fn requests_are_padded_to_hold_a_record() {
    assert_eq!(size_align(1, 1), Some((16, 8)));
    assert_eq!(size_align(0, 1), Some((16, 8)));
    assert_eq!(size_align(0, 32), Some((16, 32)));
    assert_eq!(size_align(17, 8), Some((24, 8)));
    assert_eq!(size_align(24, 16), Some((32, 16)));
    assert_eq!(size_align(100, 64), Some((128, 64)));
    assert_eq!(size_align(4096, 4096), Some((4096, 4096)));
    assert_eq!(size_align(0x7fff_ffff_ffff_fff8, 8), Some((0x7fff_ffff_ffff_fff8, 8)));
}

#[test]
fn requests_that_cannot_be_padded() {
    assert_eq!(size_align(8, 0), None);
    assert_eq!(size_align(8, 3), None);
    assert_eq!(size_align(8, 24), None);
    assert_eq!(size_align(0x7fff_ffff_ffff_fff9, 8), None);
    assert_eq!(size_align(u64::MAX, 1), None);
    assert_eq!(size_align(1, 0x8000_0000_0000_0000), None);
    let mut heap = heap_at(0x1000, 4096);
    assert_eq!(heap.allocate(8, 3), Err(HeapError::AlignmentUnsatisfiable));
    assert_eq!(heap.allocate(u64::MAX, 8), Err(HeapError::AlignmentUnsatisfiable));
    assert_eq!(heap.deallocate(0x1000, 8, 3), Err(HeapError::AlignmentUnsatisfiable));
    assert_eq!(heap.free_list(), vec![Region { start: 0x1000, size: 4096 }]);
}

#[test]
fn can_alloc_places_the_block_at_the_aligned_start() {
    let region = Region { start: 0x1008, size: 0x100 };
    assert_eq!(can_alloc(&region, 0x40, 8), Some(0x1008));
    assert_eq!(can_alloc(&region, 0x40, 64), Some(0x1040));
    // From 0x1040 the region has 0xc8 bytes.
    assert_eq!(can_alloc(&region, 0xc8, 64), Some(0x1040));
    assert_eq!(can_alloc(&region, 0xc0, 64), None);
    assert_eq!(can_alloc(&region, 0xb8, 64), Some(0x1040));
    assert_eq!(can_alloc(&region, 0xd0, 64), None);
    assert_eq!(can_alloc(&region, 0x100, 8), Some(0x1008));
    assert_eq!(can_alloc(&region, 0x108, 8), None);
    let top = Region { start: u64::MAX - 0xff, size: 0xff };
    assert_eq!(can_alloc(&top, 0x10, 0x1000), None);
}

#[test]
fn the_first_block_that_fits_is_taken() {
    let mut heap = heap_at(0x1000, 4096);
    let a = heap.allocate(64, 8).unwrap();
    let b = heap.allocate(128, 8).unwrap();
    let c = heap.allocate(64, 8).unwrap();
    assert_eq!((a, b, c), (0x1000, 0x1040, 0x10c0));
    assert_eq!(heap.deallocate(a, 64, 8), Ok(()));
    assert_eq!(heap.deallocate(b, 128, 8), Ok(()));
    // The list is in the order of the deallocations, last one first.
    assert_eq!(
        heap.free_list(),
        vec![
            Region { start: 0x1040, size: 128 },
            Region { start: 0x1000, size: 64 },
            Region { start: 0x1100, size: 3840 },
        ]
    );
    // Both of the first two blocks could serve; the first does.
    assert_eq!(heap.allocate(64, 8), Ok(0x1040));
    assert_eq!(
        heap.free_list(),
        vec![
            Region { start: 0x1080, size: 64 },
            Region { start: 0x1000, size: 64 },
            Region { start: 0x1100, size: 3840 },
        ]
    );
}

#[test]
fn a_freed_block_is_reused() {
    let mut heap = heap_at(0x1000, 4096);
    let keep = heap.allocate(256, 8).unwrap();
    let ptr = heap.allocate(128, 8).unwrap();
    assert_eq!(heap.deallocate(ptr, 128, 8), Ok(()));
    assert_eq!(heap.free_list()[0], Region { start: ptr, size: 128 });
    // The same layout again.
    assert_eq!(heap.allocate(128, 8), Ok(ptr));
    assert_eq!(heap.deallocate(ptr, 128, 8), Ok(()));
    // A smaller one that leaves room for a record.
    assert_eq!(heap.allocate(100, 8), Ok(ptr));
    assert_eq!(heap.free_list()[0], Region { start: ptr + 104, size: 24 });
    assert_ne!(keep, ptr);
}

#[test]
fn a_freed_block_that_would_leave_a_stub_is_not_reused() {
    let mut heap = heap_at(0x1000, 64);
    let ptr = heap.allocate(24, 8).unwrap();
    let rest = heap.allocate(40, 8).unwrap();
    assert_eq!((ptr, rest), (0x1000, 0x1018));
    assert_eq!(heap.deallocate(ptr, 24, 8), Ok(()));
    // 16 bytes fit into the 24 that are free, but 8 would be left.
    assert_eq!(heap.allocate(16, 8), Err(HeapError::HeapExhausted));
    assert_eq!(heap.free_list(), vec![Region { start: 0x1000, size: 24 }]);
}

#[test]
fn more_than_is_free_cannot_be_had() {
    let mut heap = heap_at(0x1000, 4096);
    heap.allocate(1024, 8).unwrap();
    let before = heap.free_list();
    assert_eq!(free_bytes(&heap), 3072);
    assert_eq!(heap.allocate(3073, 8), Err(HeapError::HeapExhausted));
    assert_eq!(heap.allocate(1 << 40, 8), Err(HeapError::HeapExhausted));
    assert_eq!(heap.free_list(), before);
    assert_eq!(free_bytes(&heap), 3072);
}

#[test]
fn an_exact_fit_consumes_the_block() {
    let mut heap = heap_at(0x1000, 4096);
    assert_eq!(heap.allocate(4096, 8), Ok(0x1000));
    assert!(heap.free_list().is_empty());
    assert_eq!(heap.allocate(16, 8), Err(HeapError::HeapExhausted));
    assert_eq!(heap.deallocate(0x1000, 4096, 8), Ok(()));
    assert_eq!(heap.free_list(), vec![Region { start: 0x1000, size: 4096 }]);
}

#[test]
fn a_block_that_would_leave_a_stub_is_passed_over() {
    let mut heap = heap_at(0x1000, 4096);
    let a = heap.allocate(64, 8).unwrap();
    let b = heap.allocate(72, 8).unwrap();
    assert_eq!((a, b), (0x1000, 0x1040));
    assert_eq!(heap.deallocate(b, 72, 8), Ok(()));
    assert_eq!(
        heap.free_list(),
        vec![Region { start: 0x1040, size: 72 }, Region { start: 0x1088, size: 3960 }]
    );
    // 64 of the first block's 72 bytes would leave 8: the second block serves.
    assert_eq!(heap.allocate(64, 8), Ok(0x1088));
    assert_eq!(
        heap.free_list(),
        vec![Region { start: 0x10c8, size: 3896 }, Region { start: 0x1040, size: 72 }]
    );
    // All 72 bytes consume the block that was passed over.
    assert_eq!(heap.allocate(3896, 8), Ok(0x10c8));
    assert_eq!(heap.free_list(), vec![Region { start: 0x1040, size: 72 }]);
    assert_eq!(heap.allocate(72, 8), Ok(0x1040));
    assert!(heap.free_list().is_empty());
}

#[test]
fn what_lies_before_an_aligned_block_is_given_up() {
    let mut heap = heap_at(0x1008, 4096);
    assert_eq!(heap.allocate(64, 64), Ok(0x1040));
    assert_eq!(heap.free_list(), vec![Region { start: 0x1080, size: 3976 }]);
}

#[test]
fn blocks_are_aligned_as_asked() {
    let mut heap = heap_at(0x1000, 1 << 16);
    for align in [1u64, 2, 4, 8, 16, 64, 256, 4096] {
        let ptr = heap.allocate(24, align).unwrap();
        assert_eq!(ptr % align, 0);
        assert_eq!(ptr % 8, 0);
    }
}

#[test]
fn the_null_pointer_is_not_taken_back() {
    let mut heap = heap_at(0x1000, 4096);
    assert_eq!(heap.deallocate(0, 64, 8), Err(HeapError::NullPointer));
    assert_eq!(heap.free_list(), vec![Region { start: 0x1000, size: 4096 }]);
}

#[test]
fn foreign_pointers_are_not_taken_back() {
    let mut heap = heap_at(0x1000, 4096);
    heap.allocate(4096, 8).unwrap();
    // Below the heap, above it, across its end, and misaligned.
    assert_eq!(heap.deallocate(0x800, 64, 8), Err(HeapError::ForeignPointer));
    assert_eq!(heap.deallocate(0x2000, 64, 8), Err(HeapError::ForeignPointer));
    assert_eq!(heap.deallocate(0x1fe0, 64, 8), Err(HeapError::ForeignPointer));
    assert_eq!(heap.deallocate(0x1004, 64, 8), Err(HeapError::ForeignPointer));
    assert_eq!(heap.deallocate(0x1008, 64, 64), Err(HeapError::ForeignPointer));
    assert_eq!(heap.deallocate(u64::MAX - 7, 64, 8), Err(HeapError::ForeignPointer));
    assert!(heap.free_list().is_empty());
    // The last block of the heap is one of its own.
    assert_eq!(heap.deallocate(0x1fc0, 64, 8), Ok(()));
}

#[test]
fn a_double_free_is_rejected() {
    let mut heap = heap_at(0x1000, 4096);
    let ptr = heap.allocate(64, 8).unwrap();
    assert_eq!(heap.deallocate(ptr, 64, 8), Ok(()));
    let after_first = heap.free_list();
    assert_eq!(heap.deallocate(ptr, 64, 8), Err(HeapError::DoubleFree));
    assert_eq!(heap.free_list(), after_first);
    // With another size, or from the middle of the block, it is no better.
    assert_eq!(heap.deallocate(ptr, 16, 8), Err(HeapError::DoubleFree));
    assert_eq!(heap.deallocate(ptr + 8, 16, 8), Err(HeapError::DoubleFree));
    assert_eq!(heap.free_list(), after_first);
    // What was never handed out is free, too.
    assert_eq!(heap.deallocate(0x1800, 64, 8), Err(HeapError::DoubleFree));
    // Once the block is in use again it can be handed back again.
    assert_eq!(heap.allocate(64, 8), Ok(ptr));
    assert_eq!(heap.deallocate(ptr, 64, 8), Ok(()));
}

#[test]
fn live_allocations_never_overlap() {
    let mut rng = rand::thread_rng();
    let mut heap = heap_at(0x10_0000, 1 << 16);
    let mut live: Vec<(u64, u64, u64)> = Vec::new();
    for _ in 0..5000 {
        if live.is_empty() || rng.gen_range(0..3) != 0 {
            let size = rng.gen_range(0..600u64);
            let align = 1u64 << rng.gen_range(0..8);
            if let Ok(ptr) = heap.allocate(size, align) {
                let padded = size_align(size, align).unwrap().0;
                assert_eq!(ptr % align, 0);
                assert!(0x10_0000 <= ptr && ptr + padded <= 0x10_0000 + (1 << 16));
                for &(p, s, a) in &live {
                    let other = size_align(s, a).unwrap().0;
                    assert!(!overlap((ptr, padded), (p, other)));
                }
                for block in heap.free_list() {
                    assert!(!overlap((ptr, padded), (block.start, block.size)));
                }
                live.push((ptr, size, align));
            }
        } else {
            let (ptr, size, align) = live.swap_remove(rng.gen_range(0..live.len()));
            assert_eq!(heap.deallocate(ptr, size, align), Ok(()));
            assert_eq!(heap.deallocate(ptr, size, align), Err(HeapError::DoubleFree));
        }
        let free = heap.free_list();
        for (i, a) in free.iter().enumerate() {
            assert!(a.size >= 16 && a.start % 8 == 0);
            for b in &free[i + 1..] {
                assert!(!overlap((a.start, a.size), (b.start, b.size)));
            }
        }
    }
}

#[test]
fn region_ends_after_its_last_byte() {
    let region = Region { start: 0x1000, size: 0x40 };
    assert_eq!(region.begin(), 0x1000);
    assert_eq!(region.end(), 0x1040);
    assert_eq!(Region::null(), 0);
}

#[test]
fn words_outside_the_heap_are_not_accessed() {
    let mut heap = heap_at(0x1000, 4096);
    heap.allocate(4096, 8).unwrap();
    assert_eq!(heap.load(0xff8), None);
    assert_eq!(heap.load(0x2000), None);
    assert_eq!(heap.load(0x1004), None);
    assert_eq!(heap.load(u64::MAX), None);
    assert!(!heap.store(0xff8, 1));
    assert!(!heap.store(0x2000, 1));
    assert!(!heap.store(0x1001, 1));
    assert!(heap.store(0x1000, 1));
    assert!(heap.store(0x1ff8, 2));
    assert_eq!(heap.load(0x1000), Some(1));
    assert_eq!(heap.load(0x1ff8), Some(2));
    let mut none = FFAlloc::new();
    assert_eq!(none.load(0), None);
    assert!(!none.store(0, 1));
}

#[test]
fn free_blocks_are_the_allocators_own() {
    let mut heap = heap_at(0x1000, 4096);
    let ptr = heap.allocate(64, 8).unwrap();
    // The record of the free block behind the allocation: no next block,
    // and 4032 bytes.
    assert_eq!(heap.load(0x1040), Some(0));
    assert_eq!(heap.load(0x1048), Some(4032));
    assert!(!heap.store(0x1040, 7));
    assert!(!heap.store(0x1800, 7));
    assert!(heap.store(ptr, 7));
    assert!(heap.store(ptr + 56, 8));
    assert_eq!(heap.free_list(), vec![Region { start: 0x1040, size: 4032 }]);
    // Handed back, the block holds a record again.
    assert_eq!(heap.deallocate(ptr, 64, 8), Ok(()));
    assert!(!heap.store(ptr, 9));
    assert_eq!(heap.load(ptr), Some(0x1040));
    assert_eq!(heap.load(ptr + 8), Some(64));
    assert_eq!(heap.load(ptr + 56), Some(8));
}

#[test]
fn blocks_in_use_keep_what_was_written() {
    let mut rng = rand::thread_rng();
    let mut heap = heap_at(0x10_0000, 1 << 14);
    let mut live: Vec<(u64, u64, u64, u64)> = Vec::new();
    for round in 0..3000u64 {
        if live.is_empty() || rng.gen_range(0..3) != 0 {
            let size = 8 * rng.gen_range(1..40u64);
            let align = 1u64 << rng.gen_range(3..7);
            if let Ok(ptr) = heap.allocate(size, align) {
                for word in 0..size / 8 {
                    assert!(heap.store(ptr + 8 * word, round ^ word));
                }
                live.push((ptr, size, align, round));
            }
        } else {
            let (ptr, size, align, _) = live.swap_remove(rng.gen_range(0..live.len()));
            assert_eq!(heap.deallocate(ptr, size, align), Ok(()));
        }
        for &(ptr, size, _, stamp) in &live {
            for word in 0..size / 8 {
                assert_eq!(heap.load(ptr + 8 * word), Some(stamp ^ word));
            }
        }
    }
}
