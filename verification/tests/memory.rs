use aao_os::kernel::arch::x86_64::paging::{PageTable, PageTableEntry, PageTableManager, PageTableMemory};
use aao_os::kernel::memory::frame_allocator::{BootInfoFrameAllocator, MemoryDescriptor};

const DESC_SIZE: usize = 48;

fn descriptor(ty: u32, phys_start: u64, page_count: u64) -> Vec<u8> {
    let mut d = Vec::new();
    d.extend_from_slice(&ty.to_le_bytes());
    d.extend_from_slice(&0u32.to_le_bytes());
    d.extend_from_slice(&phys_start.to_le_bytes());
    d.extend_from_slice(&0u64.to_le_bytes());
    d.extend_from_slice(&page_count.to_le_bytes());
    d.extend_from_slice(&0xFu64.to_le_bytes());
    d.resize(DESC_SIZE, 0xAA);
    d
}

fn memory_map(descs: &[(u32, u64, u64)]) -> Vec<u8> {
    let mut m = Vec::new();
    for &(ty, start, count) in descs {
        m.extend(descriptor(ty, start, count));
    }
    m
}

#[test]
fn descriptor_is_read_little_endian() {
    let map = memory_map(&[(3, 0x1000, 2), (7, 0x0010_0000, 5)]);
    let d = MemoryDescriptor::read_from(&map, DESC_SIZE);
    assert_eq!(d.ty, 7);
    assert_eq!(d._pad, 0);
    assert_eq!(d.phys_start, 0x0010_0000);
    assert_eq!(d.virt_start, 0);
    assert_eq!(d.page_count, 5);
    assert_eq!(d.attribute, 0xF);
}

#[test]
fn frames_come_from_conventional_memory_in_order() {
    let map = memory_map(&[(7, 0x1000, 2), (3, 0x8000, 4), (7, 0x0020_0000, 1), (7, 0x5000, 0)]);
    let mut a = BootInfoFrameAllocator::new(map, DESC_SIZE as u64);
    assert_eq!(a.allocate_frame(), Some(0x1000));
    assert_eq!(a.allocate_frame(), Some(0x2000));
    assert_eq!(a.allocate_frame(), Some(0x0020_0000));
    assert_eq!(a.allocate_frame(), None);
    assert_eq!(a.allocate_frame(), None);
}

#[test]
fn empty_map_has_no_frames() {
    let mut a = BootInfoFrameAllocator::new(Vec::new(), DESC_SIZE as u64);
    assert_eq!(a.allocate_frame(), None);
}

#[test]
fn entry_bits() {
    assert_eq!(PageTableEntry::PRESENT, 1);
    assert_eq!(PageTableEntry::WRITABLE, 2);
    assert_eq!(PageTableEntry::USER_ACCESSIBLE, 4);
    let mut e = PageTableEntry(0);
    assert!(e.is_unused());
    e.set_frame(0xFFF0_1234_5678_9ABC, PageTableEntry::PRESENT | PageTableEntry::WRITABLE);
    assert_eq!(e.0, 0x0000_1234_5678_9003);
    assert_eq!(e.frame_address(), 0x0000_1234_5678_9000);
    assert!(!e.is_unused());
}

#[test]
fn zero_clears_every_entry() {
    let mut t = PageTable { entries: [PageTableEntry(0xdead); 512] };
    t.zero();
    assert!(t.entries.iter().all(|e| e.0 == 0));
}

fn empty_table() -> PageTable {
    PageTable { entries: [PageTableEntry(0); 512] }
}

#[test]
fn map_page_creates_missing_tables() {
    let l4 = 0x1000u64;
    let mut mem = PageTableMemory::new();
    mem.insert_table(l4, empty_table());
    let mut alloc = BootInfoFrameAllocator::new(memory_map(&[(7, 0x10_0000, 8)]), DESC_SIZE as u64);
    let mut mgr = PageTableManager::new(l4);
    assert_eq!(mgr.l4_table_phys, l4);
    let va = 0x0000_4080_6040_2000u64;
    let (i4, i3, i2, i1) = ((va >> 39) & 0x1ff, (va >> 30) & 0x1ff, (va >> 21) & 0x1ff, (va >> 12) & 0x1ff);
    assert_eq!(mgr.map_page(va, 0xABC_D000, PageTableEntry::WRITABLE, &mut alloc, &mut mem), Ok(()));
    let t4 = mem.table(l4).unwrap();
    assert_eq!(t4.entries[i4 as usize].0, 0x10_0000 | 7);
    let t3 = mem.table(0x10_0000).unwrap();
    assert_eq!(t3.entries[i3 as usize].0, 0x10_1000 | 7);
    let t2 = mem.table(0x10_1000).unwrap();
    assert_eq!(t2.entries[i2 as usize].0, 0x10_2000 | 7);
    let t1 = mem.table(0x10_2000).unwrap();
    assert_eq!(t1.entries[i1 as usize].0, 0xABC_D000 | 3);
    assert_eq!(t1.entries.iter().filter(|e| e.0 != 0).count(), 1);
    // the next free frame is the fourth
    assert_eq!(alloc.allocate_frame(), Some(0x10_3000));
}

#[test]
fn map_page_reuses_existing_tables() {
    let l4 = 0x1000u64;
    let mut mem = PageTableMemory::new();
    mem.insert_table(l4, empty_table());
    let mut alloc = BootInfoFrameAllocator::new(memory_map(&[(7, 0x10_0000, 8)]), DESC_SIZE as u64);
    let mut mgr = PageTableManager::new(l4);
    assert_eq!(mgr.map_page(0x40_0000, 0x20_0000, 0, &mut alloc, &mut mem), Ok(()));
    assert_eq!(mgr.map_page(0x40_1000, 0x20_1000, 0, &mut alloc, &mut mem), Ok(()));
    let t1 = mem.table(0x10_2000).unwrap();
    assert_eq!(t1.entries[0].0, 0x20_0001);
    assert_eq!(t1.entries[1].0, 0x20_1001);
    assert_eq!(alloc.allocate_frame(), Some(0x10_3000));
}

#[test]
fn map_page_fails_without_frames() {
    let l4 = 0x1000u64;
    let mut mem = PageTableMemory::new();
    mem.insert_table(l4, empty_table());
    let mut alloc = BootInfoFrameAllocator::new(memory_map(&[(7, 0x10_0000, 2)]), DESC_SIZE as u64);
    let mut mgr = PageTableManager::new(l4);
    assert_eq!(
        mgr.map_page(0x40_0000, 0x20_0000, 0, &mut alloc, &mut mem),
        Err("Out of physical memory for page table")
    );
    // the two frames it had were linked in before it ran out
    assert_eq!(mem.table(l4).unwrap().entries[0].0, 0x10_0007);
    assert_eq!(mem.table(0x10_0000).unwrap().entries[0].0, 0x10_1007);
    assert!(mem.table(0x10_2000).is_none());
    assert_eq!(alloc.allocate_frame(), None);
}

#[test]
fn map_page_overwrites_an_existing_leaf() {
    let l4 = 0x1000u64;
    let mut mem = PageTableMemory::new();
    mem.insert_table(l4, empty_table());
    let mut alloc = BootInfoFrameAllocator::new(memory_map(&[(7, 0x10_0000, 3)]), DESC_SIZE as u64);
    let mut mgr = PageTableManager::new(l4);
    assert_eq!(mgr.map_page(0x5000, 0x7000, 0, &mut alloc, &mut mem), Ok(()));
    assert_eq!(mgr.map_page(0x5000, 0x9000, PageTableEntry::USER_ACCESSIBLE, &mut alloc, &mut mem), Ok(()));
    assert_eq!(mem.table(0x10_2000).unwrap().entries[5].0, 0x9005);
}

#[test]
fn frames_are_never_handed_out_twice() {
    let map = memory_map(&[(7, 0x1000, 3), (1, 0x1000, 3), (7, 0x9000, 2)]);
    let mut a = BootInfoFrameAllocator::new(map, DESC_SIZE as u64);
    let mut seen = Vec::new();
    while let Some(f) = a.allocate_frame() {
        assert!(!seen.contains(&f));
        assert_eq!(f % 4096, 0);
        seen.push(f);
    }
    assert_eq!(seen, vec![0x1000, 0x2000, 0x3000, 0x9000, 0xA000]);
}

#[test]
fn map_page_leaves_other_entries_alone() {
    let l4 = 0x1000u64;
    let mut t4 = empty_table();
    t4.entries[7] = PageTableEntry(0x7777_7007);
    t4.entries[511] = PageTableEntry(0x8888_8003);
    let mut mem = PageTableMemory::new();
    mem.insert_table(l4, t4);
    let mut other = empty_table();
    other.entries[3] = PageTableEntry(0x1234_5001);
    mem.insert_table(0x5_0000, other);
    let mut alloc = BootInfoFrameAllocator::new(memory_map(&[(7, 0x10_0000, 8)]), DESC_SIZE as u64);
    let mut mgr = PageTableManager::new(l4);
    assert_eq!(mgr.map_page(0x6000, 0x3000, 0, &mut alloc, &mut mem), Ok(()));
    let t4 = mem.table(l4).unwrap();
    assert_eq!(t4.entries[7].0, 0x7777_7007);
    assert_eq!(t4.entries[511].0, 0x8888_8003);
    assert_eq!(t4.entries.iter().filter(|e| e.0 != 0).count(), 3);
    assert_eq!(mem.table(0x5_0000).unwrap().entries[3].0, 0x1234_5001);
    assert_eq!(mem.table(0x10_2000).unwrap().entries[6].0, 0x3001);
}

#[test]
fn map_page_twice_is_idempotent() {
    let l4 = 0x1000u64;
    let mut mem = PageTableMemory::new();
    mem.insert_table(l4, empty_table());
    let mut alloc = BootInfoFrameAllocator::new(memory_map(&[(7, 0x10_0000, 8)]), DESC_SIZE as u64);
    let mut mgr = PageTableManager::new(l4);
    let va = 0x0000_0123_4567_8000u64;
    assert_eq!(mgr.map_page(va, 0x9000, 2, &mut alloc, &mut mem), Ok(()));
    let snapshot: Vec<(u64, Vec<u64>)> = [l4, 0x10_0000, 0x10_1000, 0x10_2000]
        .iter()
        .map(|&a| (a, mem.table(a).unwrap().entries.iter().map(|e| e.0).collect()))
        .collect();
    assert_eq!(mgr.map_page(va, 0x9000, 2, &mut alloc, &mut mem), Ok(()));
    for (a, entries) in snapshot {
        let now: Vec<u64> = mem.table(a).unwrap().entries.iter().map(|e| e.0).collect();
        assert_eq!(now, entries);
    }
    assert!(mem.table(0x10_3000).is_none());
    assert_eq!(alloc.allocate_frame(), Some(0x10_3000));
}
