use kernel_core::paging::flags::{HUGE_PAGE, NO_EXECUTE, PRESENT, USER, WRITABLE};
use kernel_core::paging::{
    align_down, align_up, enable_paging, pd_index, pdpt_index, pml4_index, pt_index, read_cr3_phys,
    regions_in_order, table_window, ActivateStep, BumpFrameAllocator, FrameAllocator, MapError, Mapper,
    MemoryRegion, PageTable, PageTableEntry, PhysMemory, ADDRESS_MASK, ENTRIES_PER_TABLE, FRAME_SIZE,
};

#[test]
fn entry_round_trip_over_frames_and_flags() {
    let frames = [0u64, 0x1000, 0x2000, 0xABCD_E000, 0x000F_FFFF_FFFF_F000];
    let all = [PRESENT, WRITABLE, USER, HUGE_PAGE, NO_EXECUTE];
    for &frame in frames.iter() {
        for combo in 0u32..32 {
            let mut bits = 0u64;
            for (i, flag) in all.iter().enumerate() {
                if combo & (1 << i) != 0 {
                    bits |= flag;
                }
            }
            let mut entry = PageTableEntry::new();
            entry.set(frame, bits);
            assert_eq!(entry.addr(), frame);
            assert_eq!(entry.flags(), bits);
            assert_eq!(entry.addr() % 4096, 0);
            assert_eq!(entry.is_unused(), bits & PRESENT == 0);
            assert_eq!(entry.raw(), frame | bits);
        }
    }
}

#[test]
fn entry_address_is_always_page_aligned() {
    let mut entry = PageTableEntry::new();
    entry.set(0x5000, 0xFFF | NO_EXECUTE);
    assert_eq!(entry.addr(), 0x5000);
    assert_eq!(entry.flags(), 0xFFF | NO_EXECUTE);
    entry.set(0x7000, 0x0000_0000_0ABC_D003);
    assert_eq!(entry.addr(), 0x7000);
    assert_eq!(entry.flags(), 0x3);
}

#[test]
fn entry_drops_frame_bits_above_bit_51() {
    let mut entry = PageTableEntry::new();
    entry.set(0x0010_0000_0000_1000, PRESENT);
    assert_eq!(entry.addr(), 0x1000);
    assert_eq!(ADDRESS_MASK, 0x000F_FFFF_FFFF_F000);
}

#[test]
fn new_and_cleared_entries_are_unused() {
    let mut entry = PageTableEntry::new();
    assert!(entry.is_unused());
    assert_eq!(entry.raw(), 0);
    entry.set(0x3000, PRESENT | WRITABLE);
    assert!(!entry.is_unused());
    entry.clear();
    assert!(entry.is_unused());
    assert_eq!(entry.addr(), 0);
    assert_eq!(entry.raw(), 0);
}

#[test]
fn table_entries_can_be_written_and_zeroed() {
    let mut table = PageTable::new();
    assert_eq!(ENTRIES_PER_TABLE, 512);
    for index in 0..512 {
        assert!(table.entry_mut(index).is_unused());
    }
    table.entry_mut(5).set(0x9000, PRESENT);
    table.entry_mut(511).set(0xA000, PRESENT | USER);
    assert_eq!(table.entry(5).addr(), 0x9000);
    assert_eq!(table.entry(511).flags(), PRESENT | USER);
    assert!(table.entry(6).is_unused());
    table.zero();
    for index in 0..512 {
        assert_eq!(table.entry(index).raw(), 0);
    }
}

#[test]
fn alignment_helpers() {
    assert_eq!(FRAME_SIZE, 4096);
    assert_eq!(align_up(0), 0);
    assert_eq!(align_up(1), 4096);
    assert_eq!(align_up(4096), 4096);
    assert_eq!(align_up(4097), 8192);
    assert_eq!(align_up(u64::MAX - 4095), 0xFFFF_FFFF_FFFF_F000);
    assert_eq!(align_down(0), 0);
    assert_eq!(align_down(4095), 0);
    assert_eq!(align_down(4096), 4096);
    assert_eq!(align_down(u64::MAX), 0xFFFF_FFFF_FFFF_F000);
}

#[test]
fn index_slices_of_a_virtual_address() {
    let addr: u64 = (0x1A5 << 39) | (0x0F3 << 30) | (0x1FF << 21) | (0x001 << 12) | 0xABC;
    assert_eq!(pml4_index(addr), 0x1A5);
    assert_eq!(pdpt_index(addr), 0x0F3);
    assert_eq!(pd_index(addr), 0x1FF);
    assert_eq!(pt_index(addr), 0x001);
    assert_eq!(pml4_index(0xFFFF_8000_0000_0000), 256);
    assert_eq!(pml4_index(0x4000_0000_0000), 128);
    assert_eq!(pt_index(0x1000), 1);
    assert_eq!(pt_index(0x2000), 2);
}

#[test]
fn control_register_helpers() {
    assert_eq!(read_cr3_phys(0x0000_0000_0010_1018), 0x10_1000);
    assert_eq!(read_cr3_phys(0xFFF0_0000_0010_1FFF), 0x10_1000);
    assert_eq!(enable_paging(0x11), Some(0x8000_0011));
    assert_eq!(enable_paging(0x8000_0011), None);
}

fn drain(allocator: &mut BumpFrameAllocator) -> Vec<u64> {
    let mut frames = Vec::new();
    while let Some(frame) = allocator.allocate_frame() {
        frames.push(frame);
    }
    frames
}

#[test]
fn single_region_hands_out_each_frame_once_in_order() {
    let mut allocator = BumpFrameAllocator::new(0x1000, 0x5000);
    assert_eq!(allocator.remaining(), 4);
    assert_eq!(allocator.allocate_frame(), Some(0x1000));
    assert_eq!(allocator.allocate_frame(), Some(0x2000));
    assert_eq!(allocator.remaining(), 2);
    assert_eq!(allocator.allocate_frame(), Some(0x3000));
    assert_eq!(allocator.allocate_frame(), Some(0x4000));
    assert_eq!(allocator.allocate_frame(), None);
    assert_eq!(allocator.allocate_frame(), None);
    assert_eq!(allocator.remaining(), 0);
}

#[test]
fn unaligned_start_is_rounded_up() {
    let mut allocator = BumpFrameAllocator::new(0x1001, 0x4000);
    assert_eq!(drain(&mut allocator), vec![0x2000, 0x3000]);
}

#[test]
fn frame_cut_short_by_the_end_is_not_handed_out() {
    let mut cut = BumpFrameAllocator::new(0x1000, 0x2800);
    assert_eq!(cut.remaining(), 1);
    assert_eq!(drain(&mut cut), vec![0x1000]);
    let mut short = BumpFrameAllocator::new(0x1000, 0x1FFF);
    assert_eq!(short.remaining(), 0);
    assert_eq!(short.allocate_frame(), None);
    let mut both = BumpFrameAllocator::new(0x1800, 0x3800);
    assert_eq!(drain(&mut both), vec![0x2000]);
}

#[test]
fn every_frame_lies_whole_inside_its_stretch() {
    for (start, end) in [(0u64, 0x5000u64), (0x1234, 0x9876), (0xFFF, 0x2001), (0x3000, 0x3FFF)] {
        let mut allocator = BumpFrameAllocator::new(start, end);
        let first = (start + 4095) / 4096 * 4096;
        let whole = if end > first { (end - first) / 4096 } else { 0 };
        assert_eq!(allocator.remaining(), whole);
        let frames = drain(&mut allocator);
        assert_eq!(frames.len() as u64, whole);
        for frame in frames {
            assert_eq!(frame % 4096, 0);
            assert!(start <= frame && frame + 4096 <= end);
        }
    }
}

#[test]
fn empty_and_inverted_regions_have_no_frames() {
    assert_eq!(BumpFrameAllocator::new(0x1000, 0x1000).allocate_frame(), None);
    assert_eq!(BumpFrameAllocator::new(0x3000, 0x1000).allocate_frame(), None);
    assert_eq!(BumpFrameAllocator::new(0x1001, 0x2000).allocate_frame(), None);
    assert_eq!(BumpFrameAllocator::new(u64::MAX - 10, u64::MAX).allocate_frame(), None);
}

#[test]
fn last_frame_of_the_address_space() {
    let mut allocator = BumpFrameAllocator::new(0xFFFF_FFFF_FFFF_D000, u64::MAX);
    assert_eq!(drain(&mut allocator), vec![0xFFFF_FFFF_FFFF_D000, 0xFFFF_FFFF_FFFF_E000]);
    assert_eq!(allocator.allocate_frame(), None);
}

#[test]
fn memory_map_yields_exactly_its_usable_frames_then_none() {
    let regions = vec![
        MemoryRegion { start: 0x0, end: 0x3000, usable: true },
        MemoryRegion { start: 0x3000, end: 0x10_0000, usable: false },
        MemoryRegion { start: 0x10_0000, end: 0x10_2000, usable: true },
        MemoryRegion { start: 0x10_2000, end: 0x10_2000, usable: true },
        MemoryRegion { start: 0x20_0800, end: 0x20_3800, usable: true },
    ];
    assert!(regions_in_order(&regions));
    let mut allocator = BumpFrameAllocator::from_regions(regions);
    let total = allocator.remaining();
    assert_eq!(total, 7);
    let mut frames = Vec::new();
    for call in 0..12u64 {
        let got = allocator.allocate_frame();
        assert_eq!(got.is_some(), call < total);
        if let Some(frame) = got {
            frames.push(frame);
        }
    }
    assert_eq!(frames, vec![0x0, 0x1000, 0x2000, 0x10_0000, 0x10_1000, 0x20_1000, 0x20_2000]);
    for pair in frames.windows(2) {
        assert!(pair[0] < pair[1]);
    }
}

#[test]
fn order_of_a_memory_map() {
    let region = |start: u64, end: u64| MemoryRegion { start, end, usable: true };
    assert!(regions_in_order(&Vec::new()));
    assert!(regions_in_order(&vec![region(0, 0x1000)]));
    assert!(regions_in_order(&vec![region(0, 0x1000), region(0x1000, 0x2000), region(0x5000, 0x6000)]));
    assert!(!regions_in_order(&vec![region(0x1000, 0x2000), region(0, 0x1000)]));
    assert!(!regions_in_order(&vec![region(0, 0x2000), region(0x1000, 0x3000)]));
    assert!(!regions_in_order(&vec![region(0, 0x3000), region(0x3000, 0x3000), region(0x2000, 0x4000)]));
}

#[test]
fn table_window_is_the_first_stretch_that_fits() {
    let regions = vec![
        MemoryRegion { start: 0x0, end: 0x4_0000, usable: false },
        MemoryRegion { start: 0x4_0800, end: 0x10_0000, usable: true },
        MemoryRegion { start: 0x10_0000, end: 0x10_3000, usable: true },
        MemoryRegion { start: 0x20_0000, end: 0x30_0000, usable: true },
        MemoryRegion { start: 0x40_0000, end: 0x80_0000, usable: true },
    ];
    assert_eq!(table_window(&regions, 0x4000), Some(0x20_0000));
    assert_eq!(table_window(&regions, 0x3000), Some(0x10_0000));
    assert_eq!(table_window(&regions, 0x20_0000), Some(0x40_0000));
    assert_eq!(table_window(&regions, 0x80_0000), None);
    assert_eq!(table_window(&Vec::new(), 0), None);
}

#[test]
fn map_without_regions_has_no_frames() {
    let mut allocator = BumpFrameAllocator::from_regions(Vec::new());
    assert_eq!(allocator.remaining(), 0);
    assert_eq!(allocator.allocate_frame(), None);
}

fn fresh_mapper(frames: usize) -> Mapper {
    Mapper::new(0, 0, PhysMemory::new(0, frames))
}

fn snapshot(mapper: &Mapper) -> Vec<u64> {
    let memory = mapper.memory();
    let mut raw = Vec::new();
    for slot in 0..memory.len() {
        for index in 0..512 {
            raw.push(memory.entry(slot, index).raw());
        }
    }
    raw
}

#[test]
fn map_page_builds_the_three_missing_tables() {
    let mut mapper = fresh_mapper(8);
    let mut allocator = BumpFrameAllocator::new(0x1000, 0x8000);
    assert_eq!(mapper.map_page(0x1000, 0x1000, PRESENT | WRITABLE, &mut allocator), Ok(()));
    assert_eq!(allocator.remaining(), 4);
    let memory = mapper.memory();
    assert_eq!(memory.entry(0, 0).raw(), 0x1000 | 0x3);
    assert_eq!(memory.entry(1, 0).raw(), 0x2000 | 0x3);
    assert_eq!(memory.entry(2, 0).raw(), 0x3000 | 0x3);
    assert_eq!(memory.entry(3, 1).raw(), 0x1000 | 0x3);
    assert!(memory.entry(3, 0).is_unused());
    assert!(memory.entry(3, 2).is_unused());
    assert_eq!(mapper.root(), 0);
}

#[test]
fn missing_tables_are_counted_before_mapping() {
    let mut mapper = fresh_mapper(8);
    let mut allocator = BumpFrameAllocator::new(0x1000, 0x8000);
    assert_eq!(mapper.missing_tables(0x1000), 3);
    assert_eq!(mapper.map_page(0x1000, 0x1000, PRESENT, &mut allocator), Ok(()));
    assert_eq!(mapper.missing_tables(0x1000), 0);
    assert_eq!(mapper.missing_tables(0x2000), 0);
    assert_eq!(mapper.missing_tables(1 << 21), 1);
    assert_eq!(mapper.missing_tables(1 << 30), 2);
    assert_eq!(mapper.missing_tables(1 << 39), 3);
    let unbacked = Mapper::from_existing(0x100_0000, 0, PhysMemory::new(0, 2));
    assert_eq!(unbacked.missing_tables(0x1000), 4);
}

#[test]
fn activation_loads_the_base_before_it_turns_paging_on() {
    let mapper = Mapper::new(0x3000, 0, PhysMemory::new(0, 4));
    assert_eq!(
        mapper.activate(0x11),
        vec![ActivateStep::LoadBase(0x3000), ActivateStep::SetControl(0x8000_0011)]
    );
    assert_eq!(mapper.activate(0x8000_0011), vec![ActivateStep::LoadBase(0x3000)]);
}

#[test]
fn map_range_twice_leaves_every_entry_unchanged() {
    let mut mapper = fresh_mapper(8);
    let mut allocator = BumpFrameAllocator::new(0x1000, 0x8000);
    assert_eq!(mapper.map_range(0x1000, 0x1000, 0x2000, PRESENT | WRITABLE, &mut allocator), Ok(()));
    let left = allocator.remaining();
    let first = snapshot(&mapper);
    assert_eq!(mapper.map_range(0x1000, 0x1000, 0x2000, PRESENT | WRITABLE, &mut allocator), Ok(()));
    assert_eq!(snapshot(&mapper), first);
    assert_eq!(allocator.remaining(), left);
    assert_eq!(left, 4);
    assert_eq!(mapper.memory().entry(3, 1).raw(), 0x1000 | 0x3);
    assert_eq!(mapper.memory().entry(3, 2).raw(), 0x2000 | 0x3);
}

#[test]
fn existing_leaf_mapping_is_never_overwritten() {
    let mut mapper = fresh_mapper(8);
    let mut allocator = BumpFrameAllocator::new(0x1000, 0x8000);
    assert_eq!(mapper.map_page(0x5000, 0x5000, PRESENT, &mut allocator), Ok(()));
    assert_eq!(mapper.map_page(0x5000, 0x9000, PRESENT | WRITABLE | USER, &mut allocator), Ok(()));
    assert_eq!(mapper.memory().entry(3, 5).raw(), 0x5000 | PRESENT);
}

#[test]
fn range_over_two_top_level_slots_takes_six_tables() {
    let mut mapper = fresh_mapper(10);
    let mut allocator = BumpFrameAllocator::new(0x1000, 0xA000);
    let boundary: u64 = 1 << 39;
    let start = boundary - 0x1000;
    assert_eq!(allocator.remaining(), 9);
    assert_eq!(mapper.identity_map_range(start, boundary + 0x1000, PRESENT, &mut allocator), Ok(()));
    assert_eq!(allocator.remaining(), 3);
    let memory = mapper.memory();
    assert_eq!(memory.entry(0, 0).raw(), 0x1000 | 0x3);
    assert_eq!(memory.entry(0, 1).raw(), 0x4000 | 0x3);
    assert_eq!(memory.entry(3, 511).raw(), start | PRESENT);
    assert_eq!(memory.entry(6, 0).raw(), boundary | PRESENT);
    let mut again = BumpFrameAllocator::new(0x7000, 0xA000);
    assert_eq!(mapper.identity_map_range(start, boundary + 0x1000, PRESENT, &mut again), Ok(()));
    assert_eq!(again.remaining(), 3);
}

#[test]
fn range_inside_one_leaf_table_takes_three_tables() {
    let mut mapper = fresh_mapper(8);
    let mut allocator = BumpFrameAllocator::new(0x1000, 0x8000);
    assert_eq!(mapper.identity_map_range(0x10_0000, 0x10_8000, PRESENT, &mut allocator), Ok(()));
    assert_eq!(allocator.remaining(), 4);
    for page in 0..8u64 {
        let addr = 0x10_0000 + page * 0x1000;
        assert_eq!(mapper.memory().entry(3, pt_index(addr)).raw(), addr | PRESENT);
    }
}

#[test]
fn identity_range_rounds_start_down_and_end_up() {
    let mut mapper = fresh_mapper(8);
    let mut allocator = BumpFrameAllocator::new(0x1000, 0x8000);
    assert_eq!(mapper.identity_map_range(0x2FFF, 0x4001, PRESENT, &mut allocator), Ok(()));
    let memory = mapper.memory();
    assert!(memory.entry(3, 1).is_unused());
    assert_eq!(memory.entry(3, 2).raw(), 0x2000 | PRESENT);
    assert_eq!(memory.entry(3, 3).raw(), 0x3000 | PRESENT);
    assert_eq!(memory.entry(3, 4).raw(), 0x4000 | PRESENT);
    assert!(memory.entry(3, 5).is_unused());
}

#[test]
fn empty_ranges_map_nothing() {
    let mut mapper = fresh_mapper(4);
    let mut allocator = BumpFrameAllocator::new(0x1000, 0x4000);
    let before = snapshot(&mapper);
    assert_eq!(mapper.map_range(0x5000, 0x5000, 0, PRESENT, &mut allocator), Ok(()));
    assert_eq!(mapper.identity_map_range(0x5000, 0x5000, PRESENT, &mut allocator), Ok(()));
    assert_eq!(mapper.identity_map_range(0x9000, 0x5000, PRESENT, &mut allocator), Ok(()));
    assert_eq!(snapshot(&mapper), before);
    assert_eq!(allocator.remaining(), 3);
}

#[test]
fn short_allocator_is_found_out_before_the_call() {
    let mapper = fresh_mapper(8);
    let allocator = BumpFrameAllocator::new(0x1000, 0x3000);
    assert_eq!(mapper.missing_tables(0x1000), 3);
    assert_eq!(allocator.remaining(), 2);
    assert!(mapper.missing_tables(0x1000) as u64 > allocator.remaining());
}

#[test]
fn last_frames_are_enough_for_the_last_tables() {
    let mut mapper = fresh_mapper(8);
    let mut allocator = BumpFrameAllocator::new(0x1000, 0x4000);
    assert_eq!(mapper.missing_tables(0x1000) as u64, allocator.remaining());
    assert_eq!(mapper.map_page(0x1000, 0x1000, PRESENT, &mut allocator), Ok(()));
    assert_eq!(allocator.remaining(), 0);
    assert_eq!(mapper.map_page(0x2000, 0x2000, PRESENT, &mut allocator), Ok(()));
    assert_eq!(mapper.memory().entry(3, 2).raw(), 0x2000 | PRESENT);
}

struct Fixed(Vec<u64>);

impl FrameAllocator for Fixed {
    fn allocate_frame(&mut self) -> Option<u64> {
        if self.0.is_empty() {
            None
        } else {
            Some(self.0.remove(0))
        }
    }
}

#[test]
fn misaligned_frame_is_reported() {
    let mut mapper = fresh_mapper(8);
    let mut allocator = Fixed(vec![0x1800]);
    let before = snapshot(&mapper);
    assert_eq!(mapper.map_page(0x1000, 0x1000, PRESENT, &mut allocator), Err(MapError::MisalignedFrame));
    assert_eq!(snapshot(&mapper), before);
}

#[test]
fn frame_outside_memory_is_reported() {
    let mut mapper = fresh_mapper(2);
    let mut allocator = Fixed(vec![0x1000, 0x2000]);
    assert_eq!(mapper.map_page(0x1000, 0x1000, PRESENT, &mut allocator), Err(MapError::Unbacked));
    assert_eq!(mapper.memory().entry(0, 0).raw(), 0x1000 | 0x3);
    assert!(mapper.memory().entry(1, 0).is_unused());
}

#[test]
fn inherited_hierarchy_is_extended_not_cleared() {
    let mut first = fresh_mapper(8);
    let mut allocator = BumpFrameAllocator::new(0x1000, 0x8000);
    assert_eq!(first.map_page(0x1000, 0xAAAA_A000, PRESENT, &mut allocator), Ok(()));
    let memory = first.into_memory();
    let mut second = Mapper::from_existing(0, 0, memory);
    assert_eq!(second.map_page(0x2000, 0xBBBB_B000, PRESENT, &mut allocator), Ok(()));
    assert_eq!(allocator.remaining(), 4);
    assert_eq!(second.memory().entry(3, 1).raw(), 0xAAAA_A000 | PRESENT);
    assert_eq!(second.memory().entry(3, 2).raw(), 0xBBBB_B000 | PRESENT);
    let cleared = Mapper::new(0, 0, second.into_memory());
    assert!(cleared.memory().entry(0, 0).is_unused());
    assert_eq!(cleared.memory().entry(3, 1).raw(), 0xAAAA_A000 | PRESENT);
}

#[test]
fn tables_are_found_through_the_physical_offset() {
    let offset = 0xFFFF_8000_0000_0000u64;
    let memory = PhysMemory::new(offset + 0x10_0000, 4);
    assert_eq!(memory.base(), offset + 0x10_0000);
    assert_eq!(memory.slot(offset + 0x10_2000), Some(2));
    assert_eq!(memory.slot(offset + 0x10_2008), None);
    assert_eq!(memory.slot(offset + 0x10_4000), None);
    assert_eq!(memory.slot(0x10_0000), None);
    let mut mapper = Mapper::new(0x10_0000, offset, memory);
    let mut allocator = BumpFrameAllocator::new(0x10_1000, 0x10_4000);
    assert_eq!(mapper.map_page(0x40_0000, 0x40_0000, PRESENT | WRITABLE, &mut allocator), Ok(()));
    assert_eq!(mapper.root(), 0x10_0000);
    assert_eq!(mapper.memory().entry(0, 0).raw(), 0x10_1000 | 0x3);
    assert_eq!(mapper.memory().entry(2, 2).raw(), 0x10_3000 | 0x3);
    assert_eq!(mapper.memory().entry(3, 0).raw(), 0x40_0000 | 0x3);
}
