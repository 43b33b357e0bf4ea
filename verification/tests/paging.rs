use kernel_memory::memory::area_frame_allocator::AreaFrameAllocator;
use kernel_memory::memory::paging::entry::{
    Entry, EntryFlags, ACCESSED, DIRTY, GLOBAL, HUGE_PAGE, NO_CACHE, NO_EXECUTE, PRESENT,
    USER_ACCESSIBLE, WRITABLE, WRITE_THROUGH,
};
use kernel_memory::memory::paging::table::{Level1, Level4, Table, TableLevel, P4};
use kernel_memory::memory::paging::table::{Level2, Level3};
use kernel_memory::memory::paging::{ActivePageTable, Page, ENTRY_COUNT};
use kernel_memory::memory::{Frame, FrameAllocator, MemoryArea};

fn allocator_from(first_frame: u64, frames: u64) -> AreaFrameAllocator {
    let area = MemoryArea { base_addr: first_frame * 4096, length: frames * 4096 };
    AreaFrameAllocator::new(vec![area], (0, 0), (0, 0))
}

fn flags(bits: u64) -> EntryFlags {
    EntryFlags::from_bits_truncate(bits)
}

#[test]
fn page_for_address_truncates() {
    assert_eq!(Page::for_address(0).number(), 0);
    assert_eq!(Page::for_address(4095).number(), 0);
    assert_eq!(Page::for_address(4096).number(), 1);
    assert_eq!(Page::for_address(0x0000_7fff_ffff_ffff).number(), 0x7_ffff_ffff);
    assert_eq!(Page::for_address(0xffff_8000_0000_0000).number(), 0xf_fff8_0000_0000);
    assert_eq!(Page::for_address(u64::MAX).number(), 0xf_ffff_ffff_ffff);
}

#[test]
fn page_start_address_is_number_times_page_size() {
    assert_eq!(Page::for_address(0x5432).start_address(), 0x5000);
    assert_eq!(Page::for_address(0xffff_8000_0000_0123).start_address(), 0xffff_8000_0000_0000);
}

#[test]
fn page_indices_are_nine_bits_each() {
    let page = Page::for_address(42 * 512 * 512 * 4096);
    assert_eq!(
        (page.p4_index(), page.p3_index(), page.p2_index(), page.p1_index()),
        (0, 42, 0, 0)
    );
    let page = Page::for_address((((1 * 512 + 2) * 512 + 3) * 512 + 4) * 4096 + 5);
    assert_eq!(
        (page.p4_index(), page.p3_index(), page.p2_index(), page.p1_index()),
        (1, 2, 3, 4)
    );
    let page = Page::for_address(u64::MAX);
    assert_eq!(
        (page.p4_index(), page.p3_index(), page.p2_index(), page.p1_index()),
        (511, 511, 511, 511)
    );
    let page = Page::for_address(0xffff_8000_0000_0000);
    assert_eq!(
        (page.p4_index(), page.p3_index(), page.p2_index(), page.p1_index()),
        (256, 0, 0, 0)
    );
}

#[test]
fn flag_bits_are_those_of_the_hardware() {
    assert_eq!(PRESENT, 1 << 0);
    assert_eq!(WRITABLE, 1 << 1);
    assert_eq!(USER_ACCESSIBLE, 1 << 2);
    assert_eq!(WRITE_THROUGH, 1 << 3);
    assert_eq!(NO_CACHE, 1 << 4);
    assert_eq!(ACCESSED, 1 << 5);
    assert_eq!(DIRTY, 1 << 6);
    assert_eq!(HUGE_PAGE, 1 << 7);
    assert_eq!(GLOBAL, 1 << 8);
    assert_eq!(NO_EXECUTE, 1 << 63);
}

#[test]
fn entry_flags_keep_only_flags() {
    assert_eq!(EntryFlags::empty().bits(), 0);
    assert_eq!(flags(u64::MAX).bits(), 0x8000_0000_0000_01ff);
    assert_eq!(flags(0x0000_1234_5678_9000).bits(), 0);
    assert_eq!(flags(PRESENT | WRITABLE).bits(), 3);
    assert_eq!(flags(PRESENT).union(flags(NO_EXECUTE)).bits(), 0x8000_0000_0000_0001);
    assert!(flags(PRESENT | WRITABLE).contains(flags(WRITABLE)));
    assert!(!flags(PRESENT | WRITABLE).contains(flags(WRITABLE | HUGE_PAGE)));
    assert!(flags(PRESENT).contains(EntryFlags::empty()));
}

#[test]
fn entry_holds_frame_and_flags() {
    let mut entry = Entry::unused();
    assert!(entry.is_unused());
    assert_eq!(entry.pointed_frame(), None);
    assert_eq!(entry.flags(), EntryFlags::empty());

    entry.set(Frame::with_number(0x12345), flags(WRITABLE | NO_EXECUTE));
    assert_eq!(entry.bits(), 0x8000_0000_1234_5003);
    assert!(!entry.is_unused());
    assert!(entry.is_present());
    assert!(!entry.is_huge());
    assert_eq!(entry.pointed_frame(), Some(Frame::with_number(0x12345)));
    assert_eq!(entry.flags(), flags(PRESENT | WRITABLE | NO_EXECUTE));

    entry.set(Frame::with_number(0xff_ffff_ffff), flags(HUGE_PAGE));
    assert_eq!(entry.bits(), 0x000f_ffff_ffff_f081);
    assert!(entry.is_huge());
    assert_eq!(entry.pointed_frame(), Some(Frame::with_number(0xff_ffff_ffff)));

    entry.set_unused();
    assert!(entry.is_unused());
    assert_eq!(entry.bits(), 0);
    assert_eq!(entry.pointed_frame(), None);
}

#[test]
fn levels_are_numbered_from_the_bottom() {
    assert_eq!(Level4::LEVEL, 4);
    assert_eq!(Level3::LEVEL, 3);
    assert_eq!(Level2::LEVEL, 2);
    assert_eq!(Level1::LEVEL, 1);
}

#[test]
fn zero_leaves_every_slot_unused() {
    let mut table: Table<Level1> = Table::new(0x1000);
    table.index_mut(0).set(Frame::with_number(1), flags(WRITABLE));
    table.index_mut(300).set(Frame::with_number(2), EntryFlags::empty());
    table.index_mut(511).set(Frame::with_number(3), flags(NO_EXECUTE));
    assert!(!table.index(300).is_unused());
    table.zero();
    for index in 0..ENTRY_COUNT {
        assert!(table.index(index).is_unused());
    }
    table.zero();
    for index in 0..ENTRY_COUNT {
        assert!(table.index(index).is_unused());
    }
    assert_eq!(table.addr(), 0x1000);
}

#[test]
fn zero_drops_the_tables_below() {
    let mut allocator = allocator_from(10, 10);
    let mut table: Table<Level4> = Table::new(P4);
    table.next_table_create(5, &mut allocator);
    assert!(table.next_table(5).is_some());
    table.zero();
    assert!(table.index(5).is_unused());
    assert!(table.next_table(5).is_none());
    assert_eq!(table.next_table_addr(5), None);
}

#[test]
fn next_table_address_follows_from_the_table_s_own() {
    let mut allocator = allocator_from(10, 10);
    let mut p4: Table<Level4> = Table::new(P4);
    assert_eq!(p4.addr(), 0xffff_ffff_ffff_f000);
    assert_eq!(p4.next_table_addr(0), None);
    let p3 = p4.next_table_create(3, &mut allocator);
    assert_eq!(p3.addr(), 0xffff_ffff_ffe0_3000);
    let p2 = p3.next_table_create(4, &mut allocator);
    assert_eq!(p2.addr(), 0xffff_ffff_c060_4000);
    let p1 = p2.next_table_create(511, &mut allocator);
    assert_eq!(p1.addr(), 0xffff_ff80_c09f_f000);
    assert_eq!(p4.next_table_addr(3), Some(0xffff_ffff_ffe0_3000));
    assert_eq!(p4.next_table_addr(4), None);
}

#[test]
fn next_table_address_is_none_for_a_huge_leaf() {
    let mut p3: Table<Level3> = Table::new(0xffff_ffff_ffe0_0000);
    p3.index_mut(1).set(Frame::with_number(512 * 512), flags(HUGE_PAGE | WRITABLE));
    assert_eq!(p3.next_table_addr(1), None);
    assert!(p3.next_table(1).is_none());
    assert!(p3.next_table_mut(1).is_none());
}

#[test]
fn next_table_create_takes_a_frame_once() {
    let mut allocator = allocator_from(10, 10);
    let mut p4: Table<Level4> = Table::new(P4);
    {
        let p3 = p4.next_table_create(7, &mut allocator);
        for index in 0..ENTRY_COUNT {
            assert!(p3.index(index).is_unused());
        }
        p3.index_mut(9).set(Frame::with_number(512 * 512), flags(HUGE_PAGE));
    }
    assert_eq!(p4.index(7).bits(), 10 * 4096 + 3);
    assert_eq!(p4.index(7).pointed_frame(), Some(Frame::with_number(10)));
    assert_eq!(p4.index(7).flags(), flags(PRESENT | WRITABLE));
    {
        let p3 = p4.next_table_create(7, &mut allocator);
        assert!(p3.index(9).is_huge());
    }
    assert_eq!(p4.index(7).bits(), 10 * 4096 + 3);
    assert_eq!(allocator.allocate_frame(), Some(Frame::with_number(11)));
    assert!(p4.next_table_mut(7).is_some());
    assert!(p4.next_table(8).is_none());
}

#[test]
fn new_hierarchy_maps_nothing() {
    let table = ActivePageTable::new();
    assert_eq!(table.p4().addr(), P4);
    for index in 0..ENTRY_COUNT {
        assert!(table.p4().index(index).is_unused());
    }
    assert_eq!(table.translate(0), None);
    assert_eq!(table.translate(0xffff_ffff_ffff_ffff), None);
    assert_eq!(table.translate_page(Page::for_address(0x1234_5000)), None);
    assert_eq!(table.missing_tables(&Page::for_address(0)), 3);
    assert!(table.is_free(&Page::for_address(0)));
    assert!(!table.is_mapped_by_page(&Page::for_address(0)));
    assert!(table.huge_leaf_aligned(&Page::for_address(0)));
}

#[test]
fn map_to_then_translate_gives_the_frame() {
    let mut allocator = allocator_from(100, 10);
    let mut table = ActivePageTable::new();
    let address: u64 = 42 * 512 * 512 * 4096;
    table.map_to(
        Page::for_address(address),
        Frame::with_number(0x777),
        EntryFlags::empty(),
        &mut allocator,
    );
    assert_eq!(table.translate(address), Some(0x777 * 4096));
    assert_eq!(table.translate(address + 1), Some(0x777 * 4096 + 1));
    assert_eq!(table.translate(address + 0x123), Some(0x777 * 4096 + 0x123));
    assert_eq!(table.translate(address + 4095), Some(0x777 * 4096 + 4095));
    assert_eq!(table.translate(address + 4096), None);
    assert_eq!(table.translate(address - 1), None);
    assert_eq!(
        table.translate_page(Page::for_address(address)),
        Some(Frame::with_number(0x777))
    );
}

#[test]
fn map_to_makes_the_missing_tables_from_the_top() {
    let mut allocator = allocator_from(100, 10);
    let mut table = ActivePageTable::new();
    let page_address: u64 = (((1 * 512 + 2) * 512 + 3) * 512 + 4) * 4096;
    assert_eq!(table.missing_tables(&Page::for_address(page_address)), 3);
    table.map_to(
        Page::for_address(page_address),
        Frame::with_number(0x55),
        flags(WRITABLE),
        &mut allocator,
    );
    assert_eq!(table.missing_tables(&Page::for_address(page_address)), 0);
    let p4 = table.p4();
    assert_eq!(p4.index(1).bits(), 100 * 4096 + 3);
    let p3 = p4.next_table(1).unwrap();
    assert_eq!(p3.index(2).bits(), 101 * 4096 + 3);
    let p2 = p3.next_table(2).unwrap();
    assert_eq!(p2.index(3).bits(), 102 * 4096 + 3);
    let p1 = p2.next_table(3).unwrap();
    assert_eq!(p1.index(4).bits(), 0x55 * 4096 + 3);
    assert_eq!(p1.index(4).flags(), flags(PRESENT | WRITABLE));
    assert!(p1.index(5).is_unused());
    assert_eq!(p1.addr(), 0xffff_ff80_4040_3000);
    assert_eq!(allocator.allocate_frame(), Some(Frame::with_number(103)));
}

#[test]
fn map_to_uses_the_tables_that_exist() {
    let mut allocator = allocator_from(100, 10);
    let mut table = ActivePageTable::new();
    table.map_to(Page::for_address(0), Frame::with_number(1), EntryFlags::empty(), &mut allocator);
    assert_eq!(table.missing_tables(&Page::for_address(4096)), 0);
    assert_eq!(table.missing_tables(&Page::for_address(512 * 4096)), 1);
    assert_eq!(table.missing_tables(&Page::for_address(512 * 512 * 4096)), 2);
    assert_eq!(table.missing_tables(&Page::for_address(512 * 512 * 512 * 4096)), 3);
    table.map_to(
        Page::for_address(4096),
        Frame::with_number(2),
        EntryFlags::empty(),
        &mut allocator,
    );
    assert!(table.is_mapped_by_page(&Page::for_address(4096)));
    assert_eq!(allocator.allocate_frame(), Some(Frame::with_number(103)));
    table.map_to(
        Page::for_address(512 * 4096),
        Frame::with_number(3),
        EntryFlags::empty(),
        &mut allocator,
    );
    assert_eq!(allocator.allocate_frame(), Some(Frame::with_number(105)));
    assert_eq!(table.translate(0), Some(4096));
    assert_eq!(table.translate(4096 + 7), Some(2 * 4096 + 7));
    assert_eq!(table.translate(512 * 4096), Some(3 * 4096));
    assert_eq!(table.translate(513 * 4096), None);
}

#[test]
fn map_takes_the_frame_before_the_tables() {
    let mut allocator = allocator_from(100, 10);
    let mut table = ActivePageTable::new();
    table.map(Page::for_address(0x4000_0000), flags(WRITABLE), &mut allocator);
    assert_eq!(table.translate(0x4000_0000), Some(100 * 4096));
    assert_eq!(table.p4().index(0).pointed_frame(), Some(Frame::with_number(101)));
    assert_eq!(allocator.allocate_frame(), Some(Frame::with_number(104)));
    table.map(Page::for_address(0x4000_1000), flags(WRITABLE), &mut allocator);
    assert_eq!(table.translate(0x4000_1fff), Some(105 * 4096 + 0xfff));
    assert_eq!(allocator.allocate_frame(), Some(Frame::with_number(106)));
}

#[test]
fn identity_map_maps_the_frame_s_own_address() {
    let mut allocator = allocator_from(100, 10);
    let mut table = ActivePageTable::new();
    table.identity_map(Frame::for_address(0xb8000), flags(WRITABLE), &mut allocator);
    assert_eq!(table.translate(0xb8000), Some(0xb8000));
    assert_eq!(table.translate(0xb8f9f), Some(0xb8f9f));
    assert_eq!(table.translate(0xb9000), None);
}

#[test]
fn unmap_then_translate_gives_nothing() {
    let mut allocator = allocator_from(100, 10);
    let mut table = ActivePageTable::new();
    let address: u64 = 42 * 512 * 512 * 4096;
    table.map_to(
        Page::for_address(address),
        Frame::with_number(9),
        EntryFlags::empty(),
        &mut allocator,
    );
    table.map_to(
        Page::for_address(address + 4096),
        Frame::with_number(8),
        EntryFlags::empty(),
        &mut allocator,
    );
    assert!(table.is_mapped_by_page(&Page::for_address(address)));
    assert!(!table.is_free(&Page::for_address(address)));
    table.unmap(Page::for_address(address), &mut allocator);
    assert_eq!(table.translate(address), None);
    assert_eq!(table.translate(address + 4095), None);
    assert_eq!(table.translate(address + 4096), Some(8 * 4096));
    assert!(!table.is_mapped_by_page(&Page::for_address(address)));
    assert!(table.is_free(&Page::for_address(address)));
    assert_eq!(table.missing_tables(&Page::for_address(address)), 0);
    assert_eq!(allocator.allocate_frame(), Some(Frame::with_number(103)));
    table.map_to(
        Page::for_address(address),
        Frame::with_number(7),
        EntryFlags::empty(),
        &mut allocator,
    );
    assert_eq!(table.translate(address + 1), Some(7 * 4096 + 1));
}

#[test]
fn map_in_the_upper_half() {
    let mut allocator = allocator_from(100, 10);
    let mut table = ActivePageTable::new();
    let address: u64 = 0xffff_8000_0020_3000;
    table.map_to(
        Page::for_address(address),
        Frame::with_number(0xff_ffff_ffff),
        flags(NO_EXECUTE),
        &mut allocator,
    );
    assert_eq!(table.translate(address + 9), Some(0xff_ffff_ffff * 4096 + 9));
    let p1 = table
        .p4()
        .next_table(256)
        .and_then(|p3| p3.next_table(0))
        .and_then(|p2| p2.next_table(1))
        .unwrap();
    assert_eq!(p1.index(3).bits(), 0x800f_ffff_ffff_f001);
}

#[test]
fn huge_leaf_of_the_second_level_spans_512_frames() {
    let mut allocator = allocator_from(100, 10);
    let mut table = ActivePageTable::new();
    {
        let p3 = table.p4_mut().next_table_create(0, &mut allocator);
        let p2 = p3.next_table_create(1, &mut allocator);
        p2.index_mut(2).set(Frame::with_number(7 * 512), flags(HUGE_PAGE | WRITABLE));
    }
    let base: u64 = (512 * 512 + 2 * 512) * 4096;
    assert!(table.huge_leaf_aligned(&Page::for_address(base)));
    assert_eq!(table.translate(base), Some(7 * 512 * 4096));
    assert_eq!(table.translate(base + 5 * 4096 + 17), Some((7 * 512 + 5) * 4096 + 17));
    assert_eq!(table.translate(base + 512 * 4096 - 1), Some((7 * 512 + 511) * 4096 + 4095));
    assert_eq!(table.translate(base + 512 * 4096), None);
    assert!(!table.is_free(&Page::for_address(base)));
    assert!(!table.is_mapped_by_page(&Page::for_address(base)));
}

#[test]
fn huge_leaf_of_the_third_level_spans_512_times_512_frames() {
    let mut allocator = allocator_from(100, 10);
    let mut table = ActivePageTable::new();
    {
        let p3 = table.p4_mut().next_table_create(0, &mut allocator);
        p3.index_mut(3).set(Frame::with_number(2 * 512 * 512), flags(HUGE_PAGE));
    }
    let base: u64 = 3 * 512 * 512 * 4096;
    assert!(table.huge_leaf_aligned(&Page::for_address(base)));
    assert_eq!(table.translate(base), Some(2 * 512 * 512 * 4096));
    assert_eq!(
        table.translate(base + (4 * 512 + 6) * 4096 + 1),
        Some((2 * 512 * 512 + 4 * 512 + 6) * 4096 + 1)
    );
    assert_eq!(table.translate(base - 1), None);
    assert!(!table.is_free(&Page::for_address(base)));
}

#[test]
fn huge_leaf_at_a_frame_that_is_not_aligned_is_refused() {
    let mut allocator = allocator_from(100, 10);
    let mut table = ActivePageTable::new();
    {
        let p3 = table.p4_mut().next_table_create(0, &mut allocator);
        p3.index_mut(3).set(Frame::with_number(2 * 512 * 512 + 512), flags(HUGE_PAGE));
        let p2 = p3.next_table_create(4, &mut allocator);
        p2.index_mut(5).set(Frame::with_number(7 * 512 + 1), flags(HUGE_PAGE));
        p2.index_mut(6).set(Frame::with_number(7 * 512 + 1), EntryFlags::empty());
    }
    assert!(!table.huge_leaf_aligned(&Page::for_address(3 * 512 * 512 * 4096)));
    assert!(!table.huge_leaf_aligned(&Page::for_address((4 * 512 * 512 + 5 * 512) * 4096)));
    assert!(table.huge_leaf_aligned(&Page::for_address(2 * 512 * 512 * 4096)));
    assert!(table.huge_leaf_aligned(&Page::for_address((4 * 512 * 512 + 4 * 512) * 4096)));
}

#[test]
fn slot_that_is_not_empty_is_not_free() {
    let mut allocator = allocator_from(100, 10);
    let mut table = ActivePageTable::new();
    table.map_to(Page::for_address(0), Frame::with_number(1), EntryFlags::empty(), &mut allocator);
    assert!(!table.is_free(&Page::for_address(0)));
    assert!(table.is_free(&Page::for_address(4096)));
    assert!(table.is_free(&Page::for_address(0x7000_0000_0000)));
}

struct Countdown {
    next: u64,
    left: u64,
}

impl FrameAllocator for Countdown {
    fn allocate_frame(&mut self) -> Option<Frame> {
        if self.left == 0 {
            return None;
        }
        self.left -= 1;
        self.next -= 1;
        Some(Frame::with_number(self.next + 1))
    }

    fn deallocate_frame(&mut self, _frame: Frame) {
        self.left += 1;
    }
}

#[test]
fn any_allocator_can_back_the_tables() {
    let mut allocator = Countdown { next: 50, left: 3 };
    let mut table = ActivePageTable::new();
    table.map_to(
        Page::for_address(0x1000),
        Frame::with_number(0x99),
        flags(WRITABLE),
        &mut allocator,
    );
    assert_eq!(table.translate(0x1abc), Some(0x99abc));
    assert_eq!(table.p4().index(0).pointed_frame(), Some(Frame::with_number(50)));
    let p3 = table.p4().next_table(0).unwrap();
    assert_eq!(p3.index(0).pointed_frame(), Some(Frame::with_number(49)));
    let p2 = p3.next_table(0).unwrap();
    assert_eq!(p2.index(0).pointed_frame(), Some(Frame::with_number(48)));
    assert_eq!(allocator.allocate_frame(), None);
}
