//! The small guest kernel that runs on the hypervisor: building its own page
//! table, switching timer interrupts on and off, and deciding on its traps.
use vstd::prelude::*;
use crate::memory::{PhysMemory, mem_clear_page};
use crate::mkernel::{is_interrupt, cause_code};
use crate::paging::{
    AllocState, PageAllocator, PageTable, PageTableEntryFlag, alloc_page, identity_map,
    identity_map_pages, identity_map_range, init, lemma_can_alloc_split,
    lemma_identity_map_pages_bound, lemma_identity_map_range_alloc, lemma_map_pages_bound,
    lemma_map_walk_alloc, map_pages, map_walk,
};

verus! {

// memory layout of the guest

pub const UART_BASE: u64 = 0x1000_0000;
pub const DRAM_START: u64 = 0x8000_0000;
pub const DRAM_END: u64 = 0x8200_0000;
pub const USER_TEST_START: u64 = 0x8201_0000;
pub const USER_TEST_END: u64 = 0x8202_0000;

#[derive(Clone, Copy)]
pub struct TrapFrame {
    pub regs: [usize; 32],
    pub fregs: [usize; 32],
    pub pc: usize,
}

/// Read, write and execute.
pub open spec fn rwx() -> u16 {
    2u16 | 4u16 | 8u16
}

/// Number of pages from the start of DRAM up to and including the one that
/// holds `elf_end`.
pub open spec fn kernel_pages(elf_end: u64) -> nat {
    ((elf_end - DRAM_START) / 4096 + 1) as nat
}

/// Number of pages of the user test region, both ends included.
pub open spec fn user_test_pages() -> nat {
    ((USER_TEST_END - USER_TEST_START) / 4096 + 1) as nat
}

/// The allocator after it is started behind `heap_end`.
pub open spec fn started_allocator(dram_end: u64, heap_end: u64) -> AllocState {
    AllocState {
        base_addr: ((heap_end & !0xfffu64) + 4096) as u64,
        last_index: 0,
        initialized: true,
        dram_end,
    }
}

/// Memory and allocator after the guest's page table is built: a root table,
/// then the kernel pages, the UART page and the user test pages, each mapped
/// to itself with read, write and execute.
pub open spec fn guest_page_table(
    m: spec_fn(u64) -> u64,
    al: AllocState,
    elf_end: u64,
) -> (spec_fn(u64) -> u64, AllocState) {
    let root = al.next_page();
    let s0 = (mem_clear_page(m, root), al.advanced(1));
    let s1 = identity_map_range(s0.0, s0.1, root, DRAM_START, kernel_pages(elf_end), rwx());
    let s2 = map_walk(s1.0, s1.1, root, UART_BASE, UART_BASE, rwx(), 2);
    identity_map_range(s2.0, s2.1, root, USER_TEST_START, user_test_pages(), rwx())
}

/// Number of pages that building the guest's page table takes: the root
/// table, and the tables that each mapping in turn allocates.
pub open spec fn guest_pages(m: spec_fn(u64) -> u64, al: AllocState, elf_end: u64) -> nat {
    let root = al.next_page();
    let s0 = (mem_clear_page(m, root), al.advanced(1));
    let s1 = identity_map_range(s0.0, s0.1, root, DRAM_START, kernel_pages(elf_end), rwx());
    let s2 = map_walk(s1.0, s1.1, root, UART_BASE, UART_BASE, rwx(), 2);
    1 + identity_map_pages(s0.0, s0.1, root, DRAM_START, kernel_pages(elf_end), rwx()) + map_pages(
        s1.0,
        s1.1,
        root,
        UART_BASE,
        2,
    ) + identity_map_pages(s2.0, s2.1, root, USER_TEST_START, user_test_pages(), rwx())
}

/// Building the guest's page table takes at most the root table and two
/// tables for each page it maps.
pub proof fn lemma_guest_pages_bound(m: spec_fn(u64) -> u64, al: AllocState, elf_end: u64)
    ensures
        guest_pages(m, al, elf_end) <= 1 + 2 * (kernel_pages(elf_end) + 1 + user_test_pages()),
{
    let root = al.next_page();
    let s0 = (mem_clear_page(m, root), al.advanced(1));
    let s1 = identity_map_range(s0.0, s0.1, root, DRAM_START, kernel_pages(elf_end), rwx());
    let s2 = map_walk(s1.0, s1.1, root, UART_BASE, UART_BASE, rwx(), 2);
    lemma_identity_map_pages_bound(s0.0, s0.1, root, DRAM_START, kernel_pages(elf_end), rwx());
    lemma_map_pages_bound(s1.0, s1.1, root, UART_BASE, 2);
    lemma_identity_map_pages_bound(s2.0, s2.1, root, USER_TEST_START, user_test_pages(), rwx());
}

/// The guest's page table and the value for `satp` that turns it on.
pub struct VmSetup {
    pub root: PageTable,
    pub satp: u64,
}

/// Starts the allocator behind `heap_end`, allocates a root table and maps
/// the guest's kernel (up to `elf_end`), its UART and its user test region
/// to themselves; `satp` selects Sv39 with that root table.
pub fn setup_vm(mem: &mut PhysMemory, allocator: &mut PageAllocator, heap_end: u64, elf_end: u64) -> (r:
    VmSetup)
    requires
        DRAM_START <= elf_end,
        elf_end < 0xffff_ffff_ffff_f000,
        heap_end < 0xffff_ffff_ffff_f000,
        started_allocator(old(allocator)@.dram_end, heap_end).can_alloc(
            guest_pages(old(mem)@, started_allocator(old(allocator)@.dram_end, heap_end), elf_end),
        ),
    ensures
        r.root.page@ == started_allocator(old(allocator)@.dram_end, heap_end).next_page(),
        r.satp == (8u64 << 60u64) | (r.root.page@ >> 12u64),
        (final(mem)@, final(allocator)@) == guest_page_table(
            old(mem)@,
            started_allocator(old(allocator)@.dram_end, heap_end),
            elf_end,
        ),
{
    let ghost m = mem@;
    init(allocator, heap_end);
    let ghost al0 = allocator@;
    let root_page = alloc_page(allocator, mem);
    let root_pt = PageTable::from_page(root_page);
    let ghost root = root_page@;
    let ghost s0 = (mem@, allocator@);
    let perm = PageTableEntryFlag::Read.bits() | PageTableEntryFlag::Write.bits()
        | PageTableEntryFlag::Execute.bits();
    assert(perm == rwx());
    let ghost kp = kernel_pages(elf_end);
    let ghost up = user_test_pages();
    let ghost c1 = identity_map_pages(s0.0, s0.1, root, DRAM_START, kp, rwx());
    let ghost s1 = identity_map_range(s0.0, s0.1, root, DRAM_START, kp, rwx());
    let ghost c2 = map_pages(s1.0, s1.1, root, UART_BASE, 2);
    let ghost s2 = map_walk(s1.0, s1.1, root, UART_BASE, UART_BASE, rwx(), 2);
    let ghost c3 = identity_map_pages(s2.0, s2.1, root, USER_TEST_START, up, rwx());
    proof {
        use_type_invariant(&*allocator);
        assert(guest_pages(m, al0, elf_end) == 1 + (c1 + (c2 + c3)));
        lemma_can_alloc_split(al0, 1, c1 + (c2 + c3));
        lemma_can_alloc_split(s0.1, c1, c2 + c3);
        lemma_identity_map_range_alloc(s0.0, s0.1, root, DRAM_START, kp, rwx());
        lemma_can_alloc_split(s1.1, c2, c3);
        lemma_map_walk_alloc(s1.0, s1.1, root, UART_BASE, UART_BASE, rwx(), 2);
    }

    let map_page_num = (elf_end - DRAM_START) / 4096 + 1;
    assert(map_page_num == kernel_pages(elf_end));
    assert(4096 * ((elf_end - DRAM_START) / 4096) <= elf_end - DRAM_START) by (nonlinear_arith)
        requires
            DRAM_START <= elf_end,
    ;
    identity_map(&root_pt, mem, allocator, DRAM_START, map_page_num, perm);

    let vaddr = UART_BASE;
    let page = crate::paging::Page::from_address(crate::paging::PhysicalAddress::new(vaddr));
    root_pt.map(mem, allocator, crate::paging::VirtualAddress::new(vaddr), &page, perm);

    let map_page_num = (USER_TEST_END - USER_TEST_START) / 4096 + 1;
    identity_map(&root_pt, mem, allocator, USER_TEST_START, map_page_num, perm);

    let mut satp: u64 = 0;
    satp |= (8 as u64) << 60;
    satp |= (0 as u64) << 44;
    satp |= root_pt.page.address().to_ppn();
    assert(((0u64 | (8u64 << 60u64)) | (0u64 << 44u64)) == 8u64 << 60u64) by (bit_vector);
    VmSetup { root: root_pt, satp }
}

/// `sstatus` and `sie` with the supervisor interrupts and the supervisor
/// timer interrupt enabled.
pub fn enable_timer_interrupts(sstatus: u64, sie: u64) -> (r: (u64, u64))
    ensures
        r == (sstatus | 2u64, sie | 32u64),
{
    assert(1u64 << 1u64 == 2u64 && 1u64 << 5u64 == 32u64) by (bit_vector);
    let sie_mask = 1u64 << 1;
    let sstatus_result: u64 = sstatus | sie_mask;
    let stie_mask = 1u64 << 5;
    let sie_result: u64 = sie | stie_mask;
    (sstatus_result, sie_result)
}

/// `sie` with the supervisor timer interrupt disabled.
pub fn clear_timers(sie: u64) -> (r: u64)
    ensures
        r == sie & !32u64,
{
    assert(1u64 << 5u64 == 32u64) by (bit_vector);
    let sie_mask = !(1u64 << 5);
    sie & sie_mask
}

/// What the guest's trap handler does.
#[derive(Clone, Copy, Debug, PartialEq, Eq, Structural)]
pub enum GuestTrap {
    /// A supervisor timer interrupt: make a timer call to the hypervisor.
    TimerInterrupt,
    UnknownInterrupt(u64),
    UnknownException(u64),
}

/// Decides what the guest does on a trap with cause `scause`.
pub fn handle_trap(scause: u64) -> (r: GuestTrap)
    ensures
        r == (if is_interrupt(scause) {
            if cause_code(scause) == 5 {
                GuestTrap::TimerInterrupt
            } else {
                GuestTrap::UnknownInterrupt(cause_code(scause))
            }
        } else {
            GuestTrap::UnknownException(cause_code(scause))
        }),
{
    let is_async = scause >> 63 & 1 == 1;
    let code = scause & 0xfff;
    if is_async {
        match code {
            5 => GuestTrap::TimerInterrupt,
            _ => GuestTrap::UnknownInterrupt(code),
        }
    } else {
        GuestTrap::UnknownException(code)
    }
}

} // verus!
