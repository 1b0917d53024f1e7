use rustyvisor::guest::{setup_vm, DRAM_END, UART_BASE, USER_TEST_START};
use rustyvisor::memory::PhysMemory;
use rustyvisor::paging::{PageAllocator, VirtualAddress};

#[test]
fn guest_page_table_maps_identity() {
    let mut mem = PhysMemory::new();
    let mut allocator = PageAllocator::new(DRAM_END);
    let setup = setup_vm(&mut mem, &mut allocator, 0x8000_8000, 0x8000_3010);
    let root = setup.root.page.address().to_usize();
    assert_eq!(root, 0x8000_9000);
    assert_eq!(setup.satp, (8 << 60) | (0x8000_9000 >> 12));
    for va in [0x8000_0000u64, 0x8000_1000, 0x8000_3000, UART_BASE, USER_TEST_START, USER_TEST_START + 16 * 4096] {
        assert_eq!(setup.root.resolve(&mem, &VirtualAddress::new(va)).to_usize(), va);
    }
}

#[test]
fn guest_page_table_takes_only_the_tables_it_needs() {
    let mut mem = PhysMemory::new();
    // room for six pages from 0x8000_9000 on: the root table, two tables for
    // the kernel, two for the UART and one more for the user test region
    let mut allocator = PageAllocator::new(0x8000_e000);
    let setup = setup_vm(&mut mem, &mut allocator, 0x8000_8000, 0x8000_3010);
    assert_eq!(allocator.last_index(), 6);
    for va in [0x8000_2000u64, UART_BASE, USER_TEST_START + 4096] {
        assert_eq!(setup.root.resolve(&mem, &VirtualAddress::new(va)).to_usize(), va);
    }
}
