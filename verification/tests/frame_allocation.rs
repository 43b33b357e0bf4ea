use kernel_memory::boot::{get_kernel_range, get_mb_range, Section};
use kernel_memory::memory::area_frame_allocator::{alloc_all_mem, AreaFrameAllocator};
use kernel_memory::memory::{Frame, FrameAllocator, MemoryArea, PAGE_SIZE};

fn area(base_addr: u64, length: u64) -> MemoryArea {
    MemoryArea { base_addr, length }
}

fn drain(allocator: &mut AreaFrameAllocator) -> Vec<u64> {
    let mut numbers = Vec::new();
    while let Some(frame) = allocator.allocate_frame() {
        numbers.push(frame.number());
        assert!(numbers.len() < 100_000);
    }
    numbers
}

#[test]
fn frame_for_address_truncates() {
    assert_eq!(Frame::for_address(0).number(), 0);
    assert_eq!(Frame::for_address(4095).number(), 0);
    assert_eq!(Frame::for_address(4096).number(), 1);
    assert_eq!(Frame::for_address(0x20_1fff).number(), 0x201);
    assert_eq!(Frame::for_address(u64::MAX).number(), 0xf_ffff_ffff_ffff);
}

#[test]
fn frame_start_address_is_number_times_page_size() {
    assert_eq!(PAGE_SIZE, 4096);
    assert_eq!(Frame::for_address(0x5432).start_address(), 0x5000);
    assert_eq!(Frame::with_number(7).start_address(), 7 * 4096);
    assert_eq!(Frame::for_address(u64::MAX).start_address(), 0xffff_ffff_ffff_f000);
}

#[test]
fn frames_compare_by_number() {
    assert_eq!(Frame::for_address(4096), Frame::with_number(1));
    assert_ne!(Frame::for_address(4096), Frame::with_number(2));
    assert!(Frame::with_number(1) < Frame::with_number(2));
}

#[test]
fn one_area_below_the_reserved_ranges() {
    let mut allocator = AreaFrameAllocator::new(
        vec![area(0, 0x10_0000)],
        (0x10_0000, 0x20_0000),
        (0x20_0000, 0x20_1000),
    );
    let first = allocator.allocate_frame();
    assert_eq!(first, Some(Frame::with_number(0)));
    assert_eq!(first.map(|frame| frame.start_address()), Some(0));
    let rest = drain(&mut allocator);
    assert_eq!(rest, (1..256).collect::<Vec<u64>>());
    for number in rest {
        let address = number * 4096;
        assert!(!(0x10_0000..0x20_1000).contains(&address));
    }
}

#[test]
fn frames_are_handed_out_once_and_rising() {
    let mut allocator = AreaFrameAllocator::new(
        vec![area(0x3000, 0x5000), area(0x10_000, 0x3000)],
        (0x5000, 0x5fff),
        (0x11_000, 0x11_000),
    );
    let numbers = drain(&mut allocator);
    assert_eq!(numbers, vec![3, 4, 6, 7, 16, 18]);
    for pair in numbers.windows(2) {
        assert!(pair[0] < pair[1]);
    }
}

#[test]
fn reserved_ranges_are_left_out_with_both_ends() {
    let mut allocator = AreaFrameAllocator::new(
        vec![area(0, 0x40_0000)],
        (0x10_0000, 0x20_0000),
        (0x20_0000, 0x20_1000),
    );
    let numbers = drain(&mut allocator);
    let mut expected: Vec<u64> = (0..0x100).collect();
    expected.extend(0x202..0x400);
    assert_eq!(numbers, expected);
}

#[test]
fn boot_information_range_before_kernel_range() {
    let mut allocator =
        AreaFrameAllocator::new(vec![area(0, 0x8000)], (0x3000, 0x3fff), (0x1000, 0x2fff));
    assert_eq!(drain(&mut allocator), vec![0, 4, 5, 6, 7]);
}

#[test]
fn every_frame_lies_in_an_area() {
    let areas = vec![area(0x9000, 0x2000), area(0x1000, 0x2000), area(0x20_000, 0x1000)];
    let mut allocator = AreaFrameAllocator::new(areas.clone(), (0, 0), (0, 0));
    let numbers = drain(&mut allocator);
    assert_eq!(numbers, vec![1, 2, 9, 10, 32]);
    for number in numbers {
        assert!(areas.iter().any(|area| {
            area.base_addr / 4096 <= number && number <= (area.base_addr + area.length - 1) / 4096
        }));
    }
}

#[test]
fn areas_that_overlap_or_lie_in_one_another() {
    let mut allocator = AreaFrameAllocator::new(
        vec![area(0x2000, 0x6000), area(0x4000, 0x1000), area(0x6000, 0x4000)],
        (0x100_000, 0x100_000),
        (0x200_000, 0x200_000),
    );
    assert_eq!(drain(&mut allocator), vec![2, 3, 4, 5, 6, 7, 8, 9]);
}

#[test]
fn area_that_does_not_start_at_a_frame() {
    let mut allocator =
        AreaFrameAllocator::new(vec![area(0x1800, 0x1000)], (0x9000, 0x9000), (0xa000, 0xa000));
    assert_eq!(drain(&mut allocator), vec![1, 2]);
}

#[test]
fn area_without_a_byte_gives_no_frame_of_its_own() {
    let mut allocator = AreaFrameAllocator::new(
        vec![area(0x3000, 0), area(0x5000, 0x1000)],
        (0x9000, 0x9000),
        (0xa000, 0xa000),
    );
    assert_eq!(drain(&mut allocator), vec![5]);
}

#[test]
fn once_run_out_always_run_out() {
    let mut allocator =
        AreaFrameAllocator::new(vec![area(0, 0x2000)], (0x1000, 0x1fff), (0x9000, 0x9000));
    assert_eq!(allocator.allocate_frame(), Some(Frame::with_number(0)));
    for _ in 0..10 {
        assert_eq!(allocator.allocate_frame(), None);
    }
}

#[test]
fn no_area_no_frame() {
    let mut allocator = AreaFrameAllocator::new(Vec::new(), (0, 0), (0, 0));
    assert_eq!(allocator.allocate_frame(), None);
    assert_eq!(allocator.allocate_frame(), None);
}

#[test]
fn all_of_an_area_reserved() {
    let mut allocator =
        AreaFrameAllocator::new(vec![area(0x1000, 0x3000)], (0, 0xffff), (0x20_000, 0x20_000));
    assert_eq!(allocator.allocate_frame(), None);
}

#[test]
fn reserved_range_up_to_the_last_address() {
    let mut allocator = AreaFrameAllocator::new(
        vec![area(0, 0x2000), area(0xffff_ffff_ffff_e000, 0x1fff)],
        (0x2000, u64::MAX),
        (0, 0),
    );
    assert_eq!(drain(&mut allocator), vec![1]);
}

#[test]
fn last_frame_of_the_address_space() {
    let mut allocator = AreaFrameAllocator::new(
        vec![area(0xffff_ffff_ffff_e000, 0x1fff)],
        (0, 0),
        (0x1000, 0x1000),
    );
    assert_eq!(drain(&mut allocator), vec![0xf_ffff_ffff_fffe, 0xf_ffff_ffff_ffff]);
}

#[test]
fn can_supply_counts_the_frames_that_are_left() {
    let mut allocator =
        AreaFrameAllocator::new(vec![area(0, 0x3000)], (0x1000, 0x1fff), (0xa000, 0xa000));
    assert!(allocator.can_supply(0));
    assert!(allocator.can_supply(2));
    assert!(!allocator.can_supply(3));
    assert_eq!(allocator.allocate_frame(), Some(Frame::with_number(0)));
    assert!(allocator.can_supply(1));
    assert!(!allocator.can_supply(2));
    assert_eq!(allocator.allocate_frame(), Some(Frame::with_number(2)));
    assert!(allocator.can_supply(0));
    assert!(!allocator.can_supply(1));
    assert_eq!(allocator.allocate_frame(), None);
}

#[test]
fn can_supply_refuses_frames_that_no_slot_can_name() {
    let allocator = AreaFrameAllocator::new(
        vec![area(0xff_ffff_fe00 * 4096 + 0x1fe000, 0x4000)],
        (0, 0),
        (0, 0),
    );
    assert!(allocator.can_supply(2));
    assert!(!allocator.can_supply(3));
}

#[test]
fn alloc_all_mem_counts_the_frames() {
    let mut allocator = AreaFrameAllocator::new(
        vec![area(0, 0x10_0000)],
        (0x10_0000, 0x20_0000),
        (0x20_0000, 0x20_1000),
    );
    assert_eq!(alloc_all_mem(&mut allocator), 256);
    assert_eq!(allocator.allocate_frame(), None);
    assert_eq!(alloc_all_mem(&mut allocator), 0);

    let mut allocator = AreaFrameAllocator::new(
        vec![area(0x3000, 0x5000), area(0x10_000, 0x3000)],
        (0x5000, 0x5fff),
        (0x11_000, 0x11_000),
    );
    assert_eq!(allocator.allocate_frame(), Some(Frame::with_number(3)));
    assert_eq!(alloc_all_mem(&mut allocator), 5);
}

#[test]
fn kernel_range_spans_the_sections() {
    let sections = vec![
        Section { addr: 0x10_8000, size: 0x1000 },
        Section { addr: 0x10_0000, size: 0x4000 },
        Section { addr: 0x10_4000, size: 0x9000 },
        Section { addr: 0x10_c000, size: 0 },
    ];
    assert_eq!(get_kernel_range(&sections), (0x10_0000, 0x10_d000));
    assert_eq!(get_kernel_range(&sections[..1].to_vec()), (0x10_8000, 0x10_9000));
    let sections = vec![Section { addr: 0, size: 0 }, Section { addr: u64::MAX - 1, size: 1 }];
    assert_eq!(get_kernel_range(&sections), (0, u64::MAX));
}

#[test]
fn boot_information_range_is_start_and_size() {
    assert_eq!(get_mb_range(0x20_0000, 0x1000), (0x20_0000, 0x20_1000));
    assert_eq!(get_mb_range(0, 0), (0, 0));
    assert_eq!(get_mb_range(u64::MAX - 8, 8), (u64::MAX - 8, u64::MAX));
}

#[test]
fn ranges_from_the_boot_information_reserve_their_frames() {
    let sections =
        vec![Section { addr: 0x3000, size: 0x800 }, Section { addr: 0x3800, size: 0x900 }];
    let kernel_range = get_kernel_range(&sections);
    let mb_range = get_mb_range(0x6fff, 1);
    let mut allocator = AreaFrameAllocator::new(vec![area(0, 0x9000)], kernel_range, mb_range);
    assert_eq!(drain(&mut allocator), vec![0, 1, 2, 5, 8]);
}
