use bootloader::bootinfo::FrameRange;
use bootloader::bootinfo::MemoryMap;
use bootloader::bootinfo::MemoryRegion;
use bootloader::bootinfo::MemoryRegionType;
use kernel::heap::bootstrap_frames::BootstrapFramesAlloc;
use kernel::heap::bootstrap_frames::MapToError;
use kernel::heap::eternal::AllocError;
use kernel::heap::eternal::EternalAlloc;
use kernel::heap::eternal_alloc;
use kernel::heap::ffallocator::Region;
use kernel::heap::init_eternal_heap;
use kernel::heap::init_kernel_heap;
use kernel::heap::Action;
use kernel::heap::Event;
use kernel::heap::HeapInit;
use kernel::heap::PageFlags;
use kernel::heap::ETERNAL_HEAP_END;
use kernel::heap::ETERNAL_HEAP_SIZE;
use kernel::heap::ETERNAL_HEAP_START;
use kernel::heap::KERNEL_HEAP_END;
use kernel::heap::KERNEL_HEAP_SIZE;
use kernel::heap::KERNEL_HEAP_START;
use kernel::heap::TOTAL_HEAP_END;
use kernel::heap::TOTAL_HEAP_SIZE;
use kernel::heap::TOTAL_HEAP_START;
use kernel::units::GiB;
use kernel::units::KiB;
use kernel::units::MiB;
use kernel::units::TiB;
use kernel::vmem::paging::Frame;
use kernel::vmem::paging::FrameSize;

fn frames(start: u64, end: u64) -> BootstrapFramesAlloc {
    let mut map = MemoryMap::new();
    map.add_region(MemoryRegion {
        range: FrameRange::new(start, end),
        region_type: MemoryRegionType::Usable,
    });
    BootstrapFramesAlloc::new(&map).unwrap()
}

const SMALL: PageFlags = PageFlags { present: true, writable: true, huge_page: false };
const LARGE: PageFlags = PageFlags { present: true, writable: true, huge_page: true };

#[test]
fn the_heaps_lie_side_by_side() {
    assert_eq!(KERNEL_HEAP_START, 0x0069_f000_0000);
    assert_eq!(KERNEL_HEAP_SIZE, 2 * 1024 * 1024 + 4096);
    assert_eq!(ETERNAL_HEAP_SIZE, 512 * 1024);
    assert_eq!(ETERNAL_HEAP_START, 0x0069_eff8_0000);
    assert_eq!(ETERNAL_HEAP_END, KERNEL_HEAP_START);
    assert_eq!(TOTAL_HEAP_START, ETERNAL_HEAP_START);
    assert_eq!(TOTAL_HEAP_END, KERNEL_HEAP_END);
    assert_eq!(TOTAL_HEAP_START + TOTAL_HEAP_SIZE, TOTAL_HEAP_END);
    assert_eq!(KERNEL_HEAP_END, 0x0069_f020_1000);
}

#[test]
fn units_are_powers_of_1024() {
    assert_eq!(KiB, 1024);
    assert_eq!(MiB, 1024 * KiB);
    assert_eq!(GiB, 1024 * MiB);
    assert_eq!(TiB, 1024 * GiB);
}

#[test]
fn the_span_is_mapped_small_pages_first() {
    let mut alloc = frames(0x100_0000, 0x800_0000);
    let mut plan = HeapInit::new();
    assert!(!plan.is_done());
    let mut pages: Vec<(u64, Frame, PageFlags)> = Vec::new();
    let mut event = Event::Begin;
    loop {
        match plan.step(&mut alloc, event) {
            Action::MapPage { page, frame, flags } => pages.push((page, frame, flags)),
            Action::Done => break,
            Action::Failed(e) => panic!("{:?}", e),
        }
        event = Event::Mapped;
    }
    assert!(plan.is_done());
    // 128 small pages of the eternal heap, one small page at the end of the
    // kernel heap, and one large page between them.
    assert_eq!(pages.len(), 130);
    for (i, (page, frame, flags)) in pages[..128].iter().enumerate() {
        assert_eq!(*page, TOTAL_HEAP_START + 0x1000 * i as u64);
        // No small range: the frames are salvaged from the top.
        assert_eq!(*frame, Frame { start: 0x7ff_f000 - 0x1000 * i as u64, size: FrameSize::Small });
        assert_eq!(*flags, SMALL);
    }
    assert_eq!(
        pages[128],
        (0x0069_f020_0000, Frame { start: 0x7ff_f000 - 0x80_000, size: FrameSize::Small }, SMALL)
    );
    assert_eq!(
        pages[129],
        (0x0069_f000_0000, Frame { start: 0x100_0000, size: FrameSize::Large }, LARGE)
    );
    // Every address of the span lies in one page.
    let mut covered = 0;
    for (_, frame, _) in &pages {
        covered += frame.size.bytes();
    }
    assert_eq!(covered, TOTAL_HEAP_SIZE);
    assert_eq!(plan.step(&mut alloc, Event::Mapped), Action::Done);
}

#[test]
fn a_span_without_a_large_page_boundary() {
    let mut alloc = frames(0x100_0000, 0x800_0000);
    let mut plan = HeapInit::over(0x1000, 0x3000);
    assert_eq!(
        plan.step(&mut alloc, Event::Begin),
        Action::MapPage {
            page: 0x1000,
            frame: Frame { start: 0x7ff_f000, size: FrameSize::Small },
            flags: SMALL
        }
    );
    assert!(matches!(plan.step(&mut alloc, Event::Mapped), Action::MapPage { page: 0x2000, .. }));
    assert!(matches!(plan.step(&mut alloc, Event::Mapped), Action::MapPage { page: 0x3000, .. }));
    assert_eq!(plan.step(&mut alloc, Event::Mapped), Action::Done);
    let mut none = HeapInit::over(0x5000, 0);
    assert!(none.is_done());
    assert_eq!(none.step(&mut alloc, Event::Begin), Action::Done);
}

#[test]
fn a_span_of_large_pages_only() {
    let mut alloc = frames(0x100_0000, 0x800_0000);
    let mut plan = HeapInit::over(0x40_0000, 0x40_0000);
    assert_eq!(
        plan.step(&mut alloc, Event::Begin),
        Action::MapPage {
            page: 0x40_0000,
            frame: Frame { start: 0x100_0000, size: FrameSize::Large },
            flags: LARGE
        }
    );
    assert_eq!(
        plan.step(&mut alloc, Event::Mapped),
        Action::MapPage {
            page: 0x60_0000,
            frame: Frame { start: 0x120_0000, size: FrameSize::Large },
            flags: LARGE
        }
    );
    assert_eq!(plan.step(&mut alloc, Event::Mapped), Action::Done);
}

#[test]
fn bring_up_fails_without_frames() {
    // Room for every small page, but none for the large one.
    let mut alloc = BootstrapFramesAlloc::new(&{
        let mut map = MemoryMap::new();
        map.add_region(MemoryRegion {
            range: FrameRange::new(0x10_0000, 0x10_0000 + TOTAL_HEAP_SIZE + 0x1000),
            region_type: MemoryRegionType::Usable,
        });
        map
    })
    .unwrap();
    let mut plan = HeapInit::new();
    let mut event = Event::Begin;
    let mut mapped = 0;
    let failure = loop {
        match plan.step(&mut alloc, event) {
            Action::MapPage { .. } => mapped += 1,
            Action::Done => panic!("the bring-up cannot go through"),
            Action::Failed(e) => break e,
        }
        event = Event::Mapped;
    };
    assert_eq!(failure, MapToError::FrameAllocationFailed);
    assert_eq!(mapped, 129);
    assert!(!plan.is_done());
}

#[test]
fn a_failed_mapping_ends_the_bring_up() {
    let mut alloc = frames(0x100_0000, 0x800_0000);
    let mut plan = HeapInit::over(0x1000, 0x1000);
    assert!(matches!(plan.step(&mut alloc, Event::Begin), Action::MapPage { .. }));
    let taken = Frame { start: 0x5000, size: FrameSize::Small };
    assert_eq!(
        plan.step(&mut alloc, Event::MapFailed(MapToError::PageAlreadyMapped(taken))),
        Action::Failed(MapToError::PageAlreadyMapped(taken))
    );
    // The error of a large page names the small frame at its start.
    let mut plan = HeapInit::over(0x20_0000, 0x20_0000);
    assert!(matches!(plan.step(&mut alloc, Event::Begin), Action::MapPage { .. }));
    let taken = Frame { start: 0x40_0000, size: FrameSize::Large };
    assert_eq!(
        plan.step(&mut alloc, Event::MapFailed(MapToError::PageAlreadyMapped(taken))),
        Action::Failed(MapToError::PageAlreadyMapped(Frame {
            start: 0x40_0000,
            size: FrameSize::Small
        }))
    );
    let mut plan = HeapInit::over(0x20_0000, 0x20_0000);
    plan.step(&mut alloc, Event::Begin);
    assert_eq!(
        plan.step(&mut alloc, Event::MapFailed(MapToError::ParentEntryHugePage)),
        Action::Failed(MapToError::ParentEntryHugePage)
    );
}

#[test]
fn the_kernel_heap_is_seeded_over_its_span() {
    let mut heap = init_kernel_heap();
    assert!(heap.initialized());
    assert_eq!(heap.free_list(), vec![Region { start: KERNEL_HEAP_START, size: KERNEL_HEAP_SIZE }]);
    assert_eq!(heap.allocate(13, 1), Ok(KERNEL_HEAP_START));
    assert_eq!(heap.allocate(KERNEL_HEAP_SIZE, 8).is_err(), true);
}

#[test]
fn the_eternal_heap_is_seeded_over_its_span() {
    let mut heap = init_eternal_heap();
    assert_eq!(heap.get(), ETERNAL_HEAP_START);
    assert_eq!(heap.end(), ETERNAL_HEAP_END);
    assert_eq!(eternal_alloc(&mut heap, 100), Some(ETERNAL_HEAP_START));
    assert_eq!(eternal_alloc(&mut heap, 1), Some(ETERNAL_HEAP_START + 100));
    assert_eq!(eternal_alloc(&mut heap, ETERNAL_HEAP_SIZE), None);
    assert_eq!(eternal_alloc(&mut heap, u64::MAX), None);
    assert_eq!(eternal_alloc(&mut heap, 1 << 63), None);
    assert_eq!(heap.get(), ETERNAL_HEAP_START + 101);
}

#[test]
fn the_cursor_stays_below_the_end() {
    let mut heap = EternalAlloc::new(0x100, 0x200);
    assert_eq!(heap.try_alloc(0x80), Some(0x100));
    assert_eq!(heap.get(), 0x180);
    // 0x180 + 0x80 is the end itself, and not below it.
    assert_eq!(heap.try_alloc(0x80), None);
    assert_eq!(heap.get(), 0x180);
    assert_eq!(heap.try_alloc(0x7f), Some(0x180));
    assert_eq!(heap.get(), 0x1ff);
    assert_eq!(heap.try_alloc(1), None);
    assert_eq!(heap.try_alloc(0), Some(0x1ff));
    assert_eq!(heap.get(), 0x1ff);
    assert_eq!(heap.end(), 0x200);
}

#[test]
fn eternal_allocations_follow_one_another() {
    let mut heap = EternalAlloc::new(0x1000, 0x2000);
    let mut expected = 0x1000;
    for size in [1u64, 7, 64, 0, 300, 1000] {
        assert_eq!(heap.allocate(size), Ok((expected, size)));
        expected += size;
        assert_eq!(heap.get(), expected);
    }
    assert_eq!(heap.allocate(0x1000), Err(AllocError {}));
    assert_eq!(heap.allocate(u64::MAX), Err(AllocError {}));
    assert_eq!(heap.get(), expected);
}

#[test]
fn address_zero_is_never_handed_out() {
    let mut heap = EternalAlloc::new(0, 0x100);
    assert_eq!(heap.try_alloc(0x10), None);
    assert_eq!(heap.get(), 0x10);
    assert_eq!(heap.try_alloc(0x10), Some(0x10));
}

#[test]
fn eternal_heaps_compare_by_cursor_and_end() {
    let a = EternalAlloc::new(1, 5);
    let b = a;
    assert_eq!(a, b);
    assert!(EternalAlloc::new(1, 5) < EternalAlloc::new(2, 3));
    assert!(EternalAlloc::new(1, 5) < EternalAlloc::new(1, 6));
}
