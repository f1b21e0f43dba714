use kernel::addr::is_power_of_two;
use kernel::addr::Addr;
use kernel::addr::AddrRange;
use kernel::mem::align_up;
use kernel::range::Range;
use rand::random;
use rand::thread_rng;
use rand::Rng;
use rand::RngCore;

const NUM_TEST: usize = 100_000;

fn get_random_align(rng: &mut impl RngCore) -> u64 {
    2u64.pow(rng.gen_range(1..8))
}

#[test]
fn start_zero_multiple() {
    let addr: u64 = 0;
    let size: u64 = 32;
    let align: u64 = 2;
    assert_eq!((addr, addr, addr + size), addr.align_to(size, align));
    let size: u64 = 48;
    let align: u64 = 8;
    assert_eq!((addr, addr, addr + size), addr.align_to(size, align));
    for _ in 0..NUM_TEST {
        let align = get_random_align(&mut thread_rng());
        let size = (random::<u32>() as u64) * align;
        assert_eq!((addr, addr, addr + size), addr.align_to(size, align));
    }
}

#[test]
fn start_offset_multiple() {
    let addr: u64 = 2;
    let size: u64 = 24;
    let align: u64 = 2;
    assert_eq!((addr, addr, addr + size), addr.align_to(size, align));
    let addr: u64 = 64;
    let size: u64 = 3131 * 16;
    let align: u64 = 16;
    assert_eq!((addr, addr, addr + size), addr.align_to(size, align));
    for _ in 0..NUM_TEST {
        let align = get_random_align(&mut thread_rng());
        let size = (random::<u32>() as u64) * align;
        let addr = (random::<u32>() as u64) * align;
        assert_eq!((addr, addr, addr + size), addr.align_to(size, align));
    }
}

#[test]
fn smaller_size_aligned() {
    let addr: u64 = 8;
    let size: u64 = 4;
    let align: u64 = 8;
    assert_eq!((addr, addr, addr), addr.align_to(size, align));
    let addr: u64 = 128;
    let size: u64 = 16;
    let align: u64 = 32;
    assert_eq!((addr, addr, addr), addr.align_to(size, align));
    for _ in 0..NUM_TEST {
        let mut rng = thread_rng();
        let align = get_random_align(&mut rng);
        let size = rng.gen_range(0..align);
        let addr = (random::<u32>() as u64) * align;
        assert_eq!((addr, addr, addr), addr.align_to(size, align));
    }
}

#[test]
fn smaller_size_unaligned() {
    let addr: u64 = 2;
    let size: u64 = 4;
    let align: u64 = 8;
    assert_eq!((addr, addr + size, addr + size), addr.align_to(size, align));
    let addr: u64 = 110;
    let size: u64 = 16;
    let align: u64 = 32;
    assert_eq!((addr, addr + size, addr + size), addr.align_to(size, align));
    for _ in 0..NUM_TEST {
        let mut rng = thread_rng();
        let align = get_random_align(&mut rng);
        // size smaller than align
        let size = rng.gen_range(0..align);
        // get an aligned address
        let addr = (rng.gen::<u32>() as u64) * align;
        // unalign it, but such that it doesn't straddle an aligned address
        let r = if align - size < 2 { 1 } else { rng.gen_range(1..align - size) };
        let addr = addr + r;
        assert_eq!((addr, addr + size, addr + size), addr.align_to(size, align));
    }
}

#[test]
fn size_zero() {
    for _ in 0..NUM_TEST {
        let mut rng = thread_rng();
        let align: u64 = get_random_align(&mut rng);
        let size: u64 = 0;
        let addr = (random::<u32>() as u64) * align;
        assert_eq!((addr, addr, addr), addr.align_to(size, align));
    }
}

#[test]
fn smaller_size_straddle() {
    let addr: u64 = 6;
    let size: u64 = 4;
    let align: u64 = 8;
    assert_eq!((addr, addr + 2, addr + 2), addr.align_to(size, align));
    let addr: u64 = 110; // 96 + 14
    let size: u64 = 25;
    let align: u64 = 32;
    let trail = 32 - 14;
    assert_eq!((addr, addr + trail, addr + trail), addr.align_to(size, align));
}

#[test]
fn normal() {}

#[test]
fn align_down_rounds_to_the_boundary_below() {
    assert_eq!(13u64.align_down(8), 8);
    assert_eq!(16u64.align_down(8), 16);
    assert_eq!(0u64.align_down(4096), 0);
    assert_eq!(0x1fffffu64.align_down(0x200000), 0);
    assert_eq!(u64::MAX.align_down(0x200000), 0xffff_ffff_ffe0_0000);
    assert_eq!(7u64.align_down(1), 7);
}

#[test]
fn align_up_rounds_to_the_boundary_above() {
    assert_eq!(13u64.align_up(8), 16);
    assert_eq!(16u64.align_up(8), 16);
    assert_eq!(1u64.align_up(4096), 4096);
    assert_eq!(0x69ef_f800_00u64.align_up(0x200000), 0x69f0_0000_00);
    assert_eq!(0u64.align_up(0x200000), 0);
    assert_eq!((u64::MAX - 7).align_up(8), u64::MAX - 7);
}

#[test]
fn align_with_a_mask_that_is_no_power_of_two() {
    // The bits of `align - 1` are cleared, whatever `align` is.
    assert_eq!(7u64.align_down(3), 5);
    assert_eq!(6u64.align_up(3), 8 & !2);
}

#[test]
fn checked_align_up_fails_where_the_result_does_not_fit() {
    assert_eq!(13u64.checked_align_up(8), Some(16));
    assert_eq!(u64::MAX.checked_align_up(8), None);
    assert_eq!((u64::MAX - 7).checked_align_up(8), Some(u64::MAX - 7));
    assert_eq!((u64::MAX - 6).checked_align_up(8), None);
    assert_eq!(13u64.checked_align_up(0), None);
}

#[test]
fn align_to_cuts_the_heap_span_at_large_pages() {
    let start: u64 = 0x0069_eff8_0000;
    let size: u64 = 0x28_1000;
    assert_eq!(
        start.align_to(size, 0x20_0000),
        (0x0069_eff8_0000, 0x0069_f000_0000, 0x0069_f020_0000)
    );
}

#[test]
fn align_to_parts_make_up_the_span() {
    for _ in 0..1000 {
        let mut rng = thread_rng();
        let align = get_random_align(&mut rng);
        let size = rng.gen_range(0..100_000u64);
        let start = rng.gen_range(0..1_000_000u64);
        let (s, a, e) = start.align_to(size, align);
        let end = start + size;
        assert_eq!(s, start);
        assert!(s <= a && a <= e && e <= end);
        assert!(a - s < align || a == end);
        assert_eq!((e - a) % align, 0);
        assert!(end - e < align);
        if a < end {
            assert_eq!(a % align, 0);
        }
    }
}

#[test]
fn range_align_to_gives_head_middle_and_tail() {
    let range: Range<u64> = Range::new(6, 30);
    let (head, middle, tail) = range.align_to(8);
    assert_eq!((head.start, head.end), (6, 8));
    assert_eq!((middle.start, middle.end), (8, 24));
    assert_eq!((tail.start, tail.end), (24, 30));
    let empty: Range<u64> = Range::new(5, 5);
    let (head, middle, tail) = empty.align_to(8);
    assert_eq!((head.start, head.end), (5, 5));
    assert_eq!((middle.start, middle.end), (5, 5));
    assert_eq!((tail.start, tail.end), (5, 5));
}

#[test]
fn power_of_two_has_one_bit() {
    assert!(is_power_of_two(1));
    assert!(is_power_of_two(8));
    assert!(is_power_of_two(0x8000_0000_0000_0000));
    assert!(!is_power_of_two(0));
    assert!(!is_power_of_two(3));
    assert!(!is_power_of_two(24));
    assert!(!is_power_of_two(u64::MAX));
}

#[test]
fn pointer_addresses_round_up() {
    assert_eq!(align_up(13, 8), 16);
    assert_eq!(align_up(16, 8), 16);
    assert_eq!(align_up(0, 4096), 0);
    assert_eq!(align_up(4097, 4096), 8192);
}

#[test]
fn range_contains_its_start_and_not_its_end() {
    let range: Range<u64> = Range::new(0x100, 0x200);
    assert!(range.contains(0x100));
    assert!(range.contains(0x1ff));
    assert!(!range.contains(0x200));
    assert!(!range.contains(0xff));
    assert_eq!(range.len(), 0x100);
    let none: Range<u64> = Range::new(u64::MAX, u64::MAX);
    assert!(!none.contains(u64::MAX));
    assert_eq!(none.len(), 0);
    assert_eq!(Range::<u64>::from(7).end, u64::MAX);
    assert_eq!(Range::<u64>::to(7).start, 0);
    let signed: Range<i32> = Range::new(-3, 3);
    assert!(signed.contains(-3));
    assert!(!signed.contains(3));
}

#[test]
fn ranges_of_32_bits() {
    let range: Range<u32> = Range::new(10, 25);
    assert_eq!(range.len(), 15);
    assert!(range.contains(10));
    assert!(!range.contains(25));
    assert_eq!(Range::<u32>::from(7).end, u32::MAX);
    assert_eq!(Range::<u32>::to(7).start, 0);
}
