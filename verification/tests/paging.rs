use rustyvisor::memory::PhysMemory;
use rustyvisor::paging::{
    alloc_16, alloc_continuous, alloc_page, identity_map, init, set_alloc_base, Page, PageAllocationReport,
    PageAllocator, PageTable, PageTableEntry, PageTableEntryFlag, PhysicalAddress, VirtualAddress,
    WalkLine,
};

fn started(dram_end: u64, heap_end: u64) -> PageAllocator {
    let mut a = PageAllocator::new(dram_end);
    init(&mut a, heap_end);
    a
}

#[test]
fn virtual_address_indices() {
    let va = VirtualAddress::new(0x8020_1abc);
    assert_eq!(va.to_vpn(), [0x1, 0x1, 0x2]);
    assert_eq!(va.to_offset(), 0xabc);
    assert_eq!(va.to_usize(), 0x8020_1abc);
}

#[test]
fn virtual_address_wide_fields() {
    // the root index has eleven bits, the offset twelve
    assert_eq!(VirtualAddress::new(1 << 40).to_vpn(), [0, 0, 1024]);
    assert_eq!(VirtualAddress::new(0x7ff << 30).to_vpn(), [0, 0, 0x7ff]);
    assert_eq!(VirtualAddress::new(0x8000_0abc).to_offset(), 0xabc);
    assert_eq!(VirtualAddress::new(0xfff).to_offset(), 0xfff);
}

#[test]
fn virtual_address_join_split() {
    let va = VirtualAddress::new_from_vpn([0x1ff, 0x12, 0x3ff]);
    assert_eq!(va.to_usize(), (0x3ff << 30) | (0x12 << 21) | (0x1ff << 12));
    assert_eq!(va.to_vpn(), [0x1ff, 0x12, 0x3ff]);
    // joining the split address keeps bits 12 to 40
    let va = VirtualAddress::new(0xffff_ffff_ffff_ffff);
    assert_eq!(VirtualAddress::new_from_vpn(va.to_vpn()).to_usize(), 0x1ff_ffff_f000);
}

#[test]
fn physical_address_numbers() {
    let pa = PhysicalAddress::new(0x8765_4321_0000);
    assert_eq!(pa.to_ppn(), 0x8765_4321_0000 >> 12);
    assert_eq!(
        pa.to_ppn_array(),
        [(0x8765_4321_0000u64 >> 12) & 0x1ff, (0x8765_4321_0000u64 >> 21) & 0x1ff, (0x8765_4321_0000u64 >> 30) & 0x3ff_ffff]
    );
    assert_eq!(pa.to_usize(), 0x8765_4321_0000);
    let page = Page::from_address(pa);
    assert_eq!(page.address().to_usize(), 0x8765_4321_0000);
}

#[test]
fn entry_from_value_fields() {
    let e = PageTableEntry::from_value(0x2000_0c01 | (1 << 9));
    assert_eq!(e.ppn, [3, 0, 2]);
    assert_eq!(e.flags, 1);
    assert!(e.is_valid());
    assert!(!e.is_leaf());
    assert!(e.is_branch());
    // bit 9 is dropped when the entry is stored again
    assert_eq!(e.to_usize(), 0x2000_0c01);
    assert_eq!(e.next_page().address().to_usize(), (2 << 30) | (3 << 12));
}

#[test]
fn entry_roundtrip() {
    let e = PageTableEntry { ppn: [0x1ff, 0x12, 0x3ff_ffff], flags: 0x1cf };
    let back = PageTableEntry::from_value(e.to_usize());
    assert_eq!(back.ppn, e.ppn);
    assert_eq!(back.flags, e.flags);
    // a word with bit 9 clear and bits 53 to 63 equal comes back unchanged
    let w: u64 = 0x0000_1234_5678_9dcf & !0x200;
    assert_eq!(PageTableEntry::from_value(w).to_usize(), w);
}

#[test]
fn entry_sign_extension() {
    let w: u64 = (1 << 53) | 0xcf;
    assert_eq!(PageTableEntry::from_value(w).to_usize(), 0xffe0_0000_0000_00cf);
}

#[test]
fn entry_flags() {
    let mut e = PageTableEntry::from_value(0);
    assert!(!e.is_valid());
    assert!(e.is_branch());
    e.set_flag(PageTableEntryFlag::Valid);
    e.set_flag(PageTableEntryFlag::Write);
    assert_eq!(e.flags, 0b101);
    assert!(e.is_valid());
    assert!(e.is_leaf());
    e.set_flag(PageTableEntryFlag::Dirty);
    assert_eq!(e.flags, 0b1000_0101);
    assert_eq!(PageTableEntryFlag::Access.bits(), 64);
    assert_eq!(PageTableEntryFlag::Global.bits(), 32);
    assert_eq!(PageTableEntryFlag::User.bits(), 16);
    assert_eq!(PageTableEntryFlag::Execute.bits(), 8);
    assert_eq!(PageTableEntryFlag::Read.bits(), 2);
}

#[test]
fn allocator_hands_out_zeroed_pages() {
    let mut mem = PhysMemory::new();
    let mut a = started(0x9000_0000, 0x8010_0123);
    mem.write(0x8010_1008, 7);
    let p = alloc_page(&mut a, &mut mem);
    assert_eq!(p.address().to_usize(), 0x8010_1000);
    assert_eq!(mem.read(0x8010_1008), 0);
    let q = alloc_page(&mut a, &mut mem);
    assert_eq!(q.address().to_usize(), 0x8010_2000);
}

#[test]
fn allocator_last_page_at_dram_end() {
    let mut mem = PhysMemory::new();
    let mut a = PageAllocator::new(0x9000_0000);
    init(&mut a, 0x8000_0000);
    set_alloc_base(&mut a, 0x9000_0000);
    let p = alloc_page(&mut a, &mut mem);
    assert_eq!(p.address().to_usize(), 0x9000_0000);
}

#[test]
fn allocator_16k_boundary() {
    let mut mem = PhysMemory::new();
    let mut a = started(0x9000_0000, 0x8000_0000);
    // the first page is at 0x8000_1000: three pages are skipped
    let root = alloc_16(&mut a, &mut mem);
    assert_eq!(root.address().to_usize(), 0x8000_4000);
    let next = alloc_page(&mut a, &mut mem);
    assert_eq!(next.address().to_usize(), 0x8000_8000);
    // already on a boundary: nothing is skipped
    let root2 = alloc_16(&mut a, &mut mem);
    assert_eq!(root2.address().to_usize(), 0x8000_c000);
}

#[test]
fn allocator_continuous() {
    let mut mem = PhysMemory::new();
    let mut a = started(0x9000_0000, 0x8000_0000);
    let first = alloc_continuous(&mut a, &mut mem, 3);
    assert_eq!(first.address().to_usize(), 0x8000_1000);
    let next = alloc_page(&mut a, &mut mem);
    assert_eq!(next.address().to_usize(), 0x8000_4000);
}

#[test]
fn map_then_resolve_identity() {
    let mut mem = PhysMemory::new();
    let mut a = started(0x9000_0000, 0x8000_0000);
    let root = alloc_16(&mut a, &mut mem);
    let pt = PageTable::from_page(root);
    let dest = Page::from_address(PhysicalAddress::new(0x8200_0000));
    pt.map(&mut mem, &mut a, VirtualAddress::new(0x4000_3000), &dest, 0b1110);
    let r = pt.resolve(&mem, &VirtualAddress::new(0x4000_3123));
    assert_eq!(r.to_usize(), 0x8200_0000 | 0x123);
    // the whole twelve-bit offset of the virtual address is kept
    let r = pt.resolve(&mem, &VirtualAddress::new(0x4000_3fff));
    assert_eq!(r.to_usize(), 0x8200_0000 | 0xfff);
    let r = pt.resolve(&mem, &VirtualAddress::new(0x4000_3c00));
    assert_eq!(r.to_usize(), 0x8200_0c00);
}

#[test]
fn map_through_existing_tables_needs_no_free_page() {
    let mut mem = PhysMemory::new();
    // room for the root table and the two tables of the first mapping only
    let mut a = started(0x8000_3000, 0x8000_0000);
    let root = alloc_page(&mut a, &mut mem);
    let pt = PageTable::from_page(root);
    let d1 = Page::from_address(PhysicalAddress::new(0x8200_0000));
    pt.map(&mut mem, &mut a, VirtualAddress::new(0x4000_3000), &d1, 0b1110);
    assert_eq!(a.last_index(), 3);
    // the allocator is exhausted, and a mapping under the same tables still works
    let d2 = Page::from_address(PhysicalAddress::new(0x8300_0000));
    pt.map(&mut mem, &mut a, VirtualAddress::new(0x4000_4000), &d2, 0b0010);
    assert_eq!(a.last_index(), 3);
    assert_eq!(pt.resolve(&mem, &VirtualAddress::new(0x4000_3123)).to_usize(), 0x8200_0123);
    assert_eq!(pt.resolve(&mem, &VirtualAddress::new(0x4000_4567)).to_usize(), 0x8300_0567);
}

#[test]
fn map_allocates_missing_tables_only() {
    let mut mem = PhysMemory::new();
    let mut a = started(0x9000_0000, 0x8000_0000);
    let root = alloc_16(&mut a, &mut mem);
    let pt = PageTable::from_page(root);
    let d1 = Page::from_address(PhysicalAddress::new(0x8300_0000));
    let d2 = Page::from_address(PhysicalAddress::new(0x8300_1000));
    pt.map(&mut mem, &mut a, VirtualAddress::new(0x1000), &d1, 0b10);
    // two tables were taken for the first mapping
    let probe = alloc_page(&mut a, &mut mem);
    assert_eq!(probe.address().to_usize(), 0x8000_a000);
    pt.map(&mut mem, &mut a, VirtualAddress::new(0x2000), &d2, 0b10);
    // the second mapping shares both tables
    let probe = alloc_page(&mut a, &mut mem);
    assert_eq!(probe.address().to_usize(), 0x8000_b000);
    assert_eq!(pt.resolve(&mem, &VirtualAddress::new(0x1000)).to_usize(), 0x8300_0000);
    assert_eq!(pt.resolve(&mem, &VirtualAddress::new(0x2000)).to_usize(), 0x8300_1000);
}

#[test]
fn map_writes_leaf_entry() {
    let mut mem = PhysMemory::new();
    let mut a = started(0x9000_0000, 0x8000_0000);
    let root = alloc_page(&mut a, &mut mem);
    let pt = PageTable::from_page(root);
    let dest = Page::from_address(PhysicalAddress::new(0x8040_0000));
    pt.map(&mut mem, &mut a, VirtualAddress::new(0), &dest, 0b1110);
    // root entry 0 points to the first new table
    let w = mem.read(0x8000_1000);
    assert_eq!(w, (0x8000_2000 >> 2) | 1);
    let w = mem.read(0x8000_2000);
    assert_eq!(w, (0x8000_3000 >> 2) | 1);
    let leaf = PageTableEntry::from_value(mem.read(0x8000_3000));
    assert_eq!(leaf.flags, 0b1100_1111);
    assert_eq!(leaf.next_page().address().to_usize(), 0x8040_0000);
}

#[test]
fn identity_map_range_resolves() {
    let mut mem = PhysMemory::new();
    let mut a = started(0x9000_0000, 0x8100_0000);
    let root = alloc_16(&mut a, &mut mem);
    let pt = PageTable::from_page(root);
    identity_map(&pt, &mut mem, &mut a, 0x8000_0000, 5, 0b1110);
    for i in 0..5u64 {
        let va = 0x8000_0000 + i * 4096;
        assert_eq!(pt.resolve(&mem, &VirtualAddress::new(va)).to_usize(), va);
    }
}

#[test]
fn report_counts_valid_entries() {
    let mut mem = PhysMemory::new();
    let mut a = started(0x9000_0000, 0x8100_0000);
    let root = alloc_page(&mut a, &mut mem);
    let pt = PageTable::from_page(root);
    identity_map(&pt, &mut mem, &mut a, 0x8000_0000, 3, 0b1110);
    let d = Page::from_address(PhysicalAddress::new(0x8800_0000));
    pt.map(&mut mem, &mut a, VirtualAddress::new(0x8000_5000), &d, 0b10);
    match pt.page_allocation_report(&mem, &a) {
        PageAllocationReport::Report { first, last, lines, total_entries, total_bytes } => {
            assert_eq!(first, 0x8100_1000);
            assert_eq!(last, 0x8100_3000);
            // one root entry, one middle entry, four leaves
            assert_eq!(total_entries, 6);
            assert_eq!(total_bytes, 6 * 4096);
            assert_eq!(
                lines,
                vec![
                    WalkLine::Blank,
                    WalkLine::Mapping { virt: 0x8000_0000, phys: 0x8000_0000 },
                    WalkLine::Ellipsis,
                    WalkLine::Mapping { virt: 0x8000_2000, phys: 0x8000_2000 },
                    WalkLine::RunLength(2),
                    WalkLine::Blank,
                    WalkLine::Mapping { virt: 0x8000_5000, phys: 0x8800_0000 },
                ]
            );
        }
        PageAllocationReport::NotInitialized => panic!("allocator is initialized"),
    }
}

#[test]
fn report_without_allocator() {
    let mem = PhysMemory::new();
    let a = PageAllocator::new(0x9000_0000);
    let pt = PageTable::from_page(Page::from_address(PhysicalAddress::new(0x8000_0000)));
    assert!(matches!(pt.page_allocation_report(&mem, &a), PageAllocationReport::NotInitialized));
}

#[test]
fn map_keeps_other_translations() {
    let mut mem = PhysMemory::new();
    let mut a = started(0x9000_0000, 0x8000_0000);
    let root = alloc_page(&mut a, &mut mem);
    let pt = PageTable::from_page(root);
    let d1 = Page::from_address(PhysicalAddress::new(0x8400_0000));
    let d2 = Page::from_address(PhysicalAddress::new(0x8500_0000));
    let d3 = Page::from_address(PhysicalAddress::new(0x8600_0000));
    pt.map(&mut mem, &mut a, VirtualAddress::new(0x4000_0000), &d1, 0b10);
    pt.map(&mut mem, &mut a, VirtualAddress::new(0x4020_0000), &d2, 0b10);
    pt.map(&mut mem, &mut a, VirtualAddress::new(0x0000_1000), &d3, 0b10);
    assert_eq!(pt.resolve(&mem, &VirtualAddress::new(0x4000_0000)).to_usize(), 0x8400_0000);
    assert_eq!(pt.resolve(&mem, &VirtualAddress::new(0x4020_0000)).to_usize(), 0x8500_0000);
    assert_eq!(pt.resolve(&mem, &VirtualAddress::new(0x0000_1000)).to_usize(), 0x8600_0000);
    // mapping an address again replaces its translation only
    pt.map(&mut mem, &mut a, VirtualAddress::new(0x4000_0000), &d3, 0b10);
    assert_eq!(pt.resolve(&mem, &VirtualAddress::new(0x4000_0000)).to_usize(), 0x8600_0000);
    assert_eq!(pt.resolve(&mem, &VirtualAddress::new(0x4020_0000)).to_usize(), 0x8500_0000);
}

#[test]
fn from_memory_reads_entry() {
    let mut mem = PhysMemory::new();
    mem.write(0x8000_0008, 0x2000_0c01);
    let e = PageTableEntry::from_memory(&mem, PhysicalAddress::new(0x8000_0008));
    assert_eq!(e.ppn, [3, 0, 2]);
    assert_eq!(e.flags, 1);
    assert!(PageTable::from_page(Page::from_address(PhysicalAddress::new(0x8000_0000))).leaves_above_first_page(&mem));
}
