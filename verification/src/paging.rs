//! Sv39 paging (with the four-page root table of the guest stage, Sv39x4):
//! virtual and physical addresses, page-table entries, a bump allocator of
//! pages, and the walk that maps and resolves a virtual address.
use vstd::prelude::*;
use crate::memory::{PhysMemory, mem_write, mem_clear_page, mem_clear_pages, in_page};

verus! {

// Addresses
/////

/// Index into the table of the given level (0, 1 or 2) that a virtual
/// address selects. The root level takes eleven bits, as the root table of the
/// guest stage spans four pages.
pub open spec fn vpn_index(va: u64, level: nat) -> u64 {
    if level == 0 {
        (va >> 12) & 0x1ff
    } else if level == 1 {
        (va >> 21) & 0x1ff
    } else {
        (va >> 30) & 0x7ff
    }
}

pub struct VirtualAddress {
    addr: u64,
}

impl VirtualAddress {
    pub closed spec fn view(&self) -> u64 {
        self.addr
    }

    pub fn new(addr: u64) -> (r: VirtualAddress)
        ensures
            r@ == addr,
    {
        VirtualAddress { addr: addr }
    }

    pub fn new_from_vpn(vpn: [u64; 3]) -> (r: VirtualAddress)
        ensures
            r@ == (vpn[2] << 30) | (vpn[1] << 21) | (vpn[0] << 12),
    {
        let addr = (vpn[2]) << 30 | (vpn[1]) << 21 | (vpn[0]) << 12;
        VirtualAddress { addr: addr }
    }

    pub fn to_vpn(&self) -> (r: [u64; 3])
        ensures
            r[0] == vpn_index(self@, 0),
            r[1] == vpn_index(self@, 1),
            r[2] == vpn_index(self@, 2),
    {
        [
            (self.addr >> 12) & 0x1ff,
            (self.addr >> 21) & 0x1ff,
            (self.addr >> 30) & 0x7ff,
        ]
    }

    /// The offset within the page: the low twelve bits of the address.
    pub fn to_offset(&self) -> (r: u64)
        ensures
            r == self@ & 0xfff,
    {
        self.addr & 0xfff
    }

    pub fn to_usize(&self) -> (r: u64)
        ensures
            r == self@,
    {
        self.addr
    }
}

/// Splitting an address into its indices and joining them again gives back
/// bits 12 to 40 of the address.
pub proof fn lemma_vpn_join_split(va: u64)
    ensures
        ((vpn_index(va, 2) << 30) | (vpn_index(va, 1) << 21) | (vpn_index(va, 0) << 12))
            == va & 0x1ff_ffff_f000,
{
    assert((((va >> 30) & 0x7ff) << 30) | (((va >> 21) & 0x1ff) << 21) | (((va >> 12) & 0x1ff)
        << 12) == va & 0x1ff_ffff_f000) by (bit_vector);
}

/// Joining indices in range and splitting the address again gives back the
/// indices.
pub proof fn lemma_vpn_split_join(v0: u64, v1: u64, v2: u64)
    requires
        v0 < 512,
        v1 < 512,
        v2 < 2048,
    ensures
        vpn_index((v2 << 30) | (v1 << 21) | (v0 << 12), 0) == v0,
        vpn_index((v2 << 30) | (v1 << 21) | (v0 << 12), 1) == v1,
        vpn_index((v2 << 30) | (v1 << 21) | (v0 << 12), 2) == v2,
{
    assert(v0 < 512 && v1 < 512 && v2 < 2048 ==> ((((v2 << 30) | (v1 << 21) | (v0 << 12)) >> 12)
        & 0x1ff) == v0) by (bit_vector);
    assert(v0 < 512 && v1 < 512 && v2 < 2048 ==> ((((v2 << 30) | (v1 << 21) | (v0 << 12)) >> 21)
        & 0x1ff) == v1) by (bit_vector);
    assert(v0 < 512 && v1 < 512 && v2 < 2048 ==> ((((v2 << 30) | (v1 << 21) | (v0 << 12)) >> 30)
        & 0x7ff) == v2) by (bit_vector);
}

#[derive(Copy, Clone)]
pub struct PhysicalAddress {
    addr: u64,
}

impl PhysicalAddress {
    pub closed spec fn view(&self) -> u64 {
        self.addr
    }

    pub fn new(addr: u64) -> (r: PhysicalAddress)
        ensures
            r@ == addr,
    {
        PhysicalAddress { addr: addr }
    }

    /// The physical page number.
    pub fn to_ppn(&self) -> (r: u64)
        ensures
            r == self@ >> 12,
    {
        self.addr >> 12
    }

    pub fn to_ppn_array(&self) -> (r: [u64; 3])
        ensures
            r[0] == (self@ >> 12) & 0x1ff,
            r[1] == (self@ >> 21) & 0x1ff,
            r[2] == (self@ >> 30) & 0x3ff_ffff,
    {
        [
            (self.addr >> 12) & 0x1ff,
            (self.addr >> 21) & 0x1ff,
            (self.addr >> 30) & 0x3ff_ffff,
        ]
    }

    pub fn to_usize(&self) -> (r: u64)
        ensures
            r == self@,
    {
        self.addr
    }
}

// Page
/////

#[derive(Copy, Clone)]
pub struct Page {
    addr: PhysicalAddress,
}

impl Page {
    /// Address of the first byte of the page.
    pub closed spec fn view(&self) -> u64 {
        self.addr@
    }

    pub fn from_address(addr: PhysicalAddress) -> (r: Page)
        ensures
            r@ == addr@,
    {
        Page { addr: addr }
    }

    pub fn address(&self) -> (r: PhysicalAddress)
        ensures
            r@ == self@,
    {
        self.addr
    }

    /// Sets the 512 words of the page to zero.
    pub fn clear(&self, mem: &mut PhysMemory)
        requires
            self@ + 4096 <= u64::MAX,
        ensures
            final(mem)@ == mem_clear_page(old(mem)@, self@),
    {
        mem.clear_page(self.addr.addr);
    }
}


// Page Allocator
/////

/// State of the page allocator: pages are handed out one after another from
/// `base_addr`; `last_index` pages have been handed out; no page beyond
/// `dram_end` is handed out.
pub struct AllocState {
    pub base_addr: u64,
    pub last_index: u64,
    pub initialized: bool,
    pub dram_end: u64,
}

impl AllocState {
    /// Address of the page that the next allocation hands out.
    pub open spec fn next_page(self) -> u64 {
        (self.base_addr + 4096 * self.last_index) as u64
    }

    /// `n` more pages can be allocated: none, or the allocator is initialized
    /// and the last of them starts at or below `dram_end`.
    pub open spec fn can_alloc(self, n: nat) -> bool {
        n == 0 || (self.initialized && self.base_addr + 4096 * (self.last_index + n - 1)
            <= self.dram_end)
    }

    /// Physical memory ends below 2^56, the reach of a page-table entry.
    pub open spec fn wf(self) -> bool {
        self.dram_end < 0x100_0000_0000_0000
    }

    /// The state after `n` more allocations.
    pub open spec fn advanced(self, n: nat) -> AllocState {
        AllocState {
            base_addr: self.base_addr,
            last_index: (self.last_index + n) as u64,
            initialized: self.initialized,
            dram_end: self.dram_end,
        }
    }
}

/// Room for `j + k` pages is room for `j` pages and then for `k` more.
pub proof fn lemma_can_alloc_split(a: AllocState, j: nat, k: nat)
    requires
        a.can_alloc(j + k),
    ensures
        a.can_alloc(j),
        a.advanced(j).can_alloc(k),
        a.advanced(j).advanced(k) == a.advanced(j + k),
{
}

/// Room for `n` pages is room for fewer.
pub proof fn lemma_can_alloc_less(a: AllocState, n: nat, k: nat)
    requires
        a.can_alloc(n),
        k <= n,
    ensures
        a.can_alloc(k),
{
}

pub struct PageAllocator {
    base_addr: u64,
    last_index: u64,
    initialized: bool,
    dram_end: u64,
}

impl PageAllocator {
    /// The memory that the allocator hands out lies below 2^56.
    #[verifier::type_invariant]
    pub open spec fn inv(&self) -> bool {
        self@.wf()
    }

    pub closed spec fn view(&self) -> AllocState {
        AllocState {
            base_addr: self.base_addr,
            last_index: self.last_index,
            initialized: self.initialized,
            dram_end: self.dram_end,
        }
    }

    /// Address of the first page handed out.
    pub fn base_addr(&self) -> (r: u64)
        ensures
            r == self@.base_addr,
    {
        self.base_addr
    }

    /// Number of pages handed out.
    pub fn last_index(&self) -> (r: u64)
        ensures
            r == self@.last_index,
    {
        self.last_index
    }

    pub fn is_initialized(&self) -> (r: bool)
        ensures
            r == self@.initialized,
    {
        self.initialized
    }

    /// An allocator that is not initialized yet and never hands out a page
    /// beyond `dram_end`.
    pub fn new(dram_end: u64) -> (r: PageAllocator)
        requires
            dram_end < 0x100_0000_0000_0000,
        ensures
            r@ == (AllocState { base_addr: 0, last_index: 0, initialized: false, dram_end }),
    {
        PageAllocator { base_addr: 0, last_index: 0, initialized: false, dram_end }
    }
}

/// Starts the allocator at the first page boundary after `heap_end`.
pub fn init(allocator: &mut PageAllocator, heap_end: u64)
    requires
        heap_end < 0xffff_ffff_ffff_f000,
    ensures
        final(allocator)@ == (AllocState {
            base_addr: ((heap_end & !0xfffu64) + 4096) as u64,
            last_index: 0,
            initialized: true,
            dram_end: old(allocator)@.dram_end,
        }),
{
    proof {
        use_type_invariant(&*allocator);
    }
    assert((heap_end & !0xfffu64) <= heap_end) by (bit_vector);
    allocator.base_addr = (heap_end & !(0xfff as u64)) + 4096;
    allocator.last_index = 0;
    allocator.initialized = true;
}

pub fn set_alloc_base(allocator: &mut PageAllocator, addr: u64)
    ensures
        final(allocator)@ == (AllocState { base_addr: addr, ..old(allocator)@ }),
{
    proof {
        use_type_invariant(&*allocator);
    }
    allocator.base_addr = addr;
}

/// Allocates the next page and fills it with zeros.
pub fn alloc_page(allocator: &mut PageAllocator, mem: &mut PhysMemory) -> (r: Page)
    requires
        old(allocator)@.can_alloc(1),
    ensures
        r@ == old(allocator)@.next_page(),
        final(allocator)@ == old(allocator)@.advanced(1),
        final(mem)@ == mem_clear_page(old(mem)@, r@),
{
    proof {
        use_type_invariant(&*allocator);
    }
    allocator.last_index = allocator.last_index + 1;
    let addr = allocator.base_addr + 4096 * (allocator.last_index - 1);
    let p = Page::from_address(PhysicalAddress::new(addr));
    p.clear(mem);
    p
}

/// Allocates `num` consecutive pages and returns the first.
pub fn alloc_continuous(allocator: &mut PageAllocator, mem: &mut PhysMemory, num: u64) -> (r: Page)
    requires
        num > 0,
        old(allocator)@.can_alloc(num as nat),
    ensures
        r@ == old(allocator)@.next_page(),
        final(allocator)@ == old(allocator)@.advanced(num as nat),
        final(mem)@ == mem_clear_pages(old(mem)@, r@, num as nat),
{
    let ghost a0 = allocator@;
    let ghost m0 = mem@;
    let first = alloc_page(allocator, mem);
    assert(mem@ == mem_clear_pages(m0, first@, 1)) by {
        assert(mem_clear_pages(m0, first@, 0) == m0);
    }
    let mut k: u64 = 1;
    while k < num
        invariant
            1 <= k <= num,
            a0.can_alloc(num as nat),
            first@ == a0.next_page(),
            allocator@ == a0.advanced(k as nat),
            mem@ == mem_clear_pages(m0, first@, k as nat),
        decreases num - k,
    {
        let p = alloc_page(allocator, mem);
        assert(p@ == first@ + 4096 * k);
        k = k + 1;
    }
    first
}

/// Number of pages that are skipped before a page on a 16 KiB boundary when
/// allocation starts at the page-aligned address `a`.
pub open spec fn pages_to_16k(a: u64) -> nat {
    if a & 0x3fff == 0 {
        0
    } else if a & 0x3fff == 0x3000 {
        1
    } else if a & 0x3fff == 0x2000 {
        2
    } else {
        3
    }
}

proof fn lemma_pages_to_16k(a: u64, k: u64)
    requires
        a & 0xfff == 0,
        a < 0x100_0000_0000_0000,
        k <= pages_to_16k(a),
    ensures
        (((a + 4096 * k) as u64) & 0x3fff == 0) == (k == pages_to_16k(a)),
{
    assert(a & 0xfff == 0 && a < 0x100_0000_0000_0000 ==> (a & 0x3fff == 0 || a & 0x3fff == 0x1000
        || a & 0x3fff == 0x2000 || a & 0x3fff == 0x3000)) by (bit_vector);
    assert(a < 0x100_0000_0000_0000 && a & 0x3fff == 0x3000 ==> ((a + 0x1000) as u64) & 0x3fff == 0)
        by (bit_vector);
    assert(a < 0x100_0000_0000_0000 && a & 0x3fff == 0x2000 ==> ((a + 0x1000) as u64) & 0x3fff != 0
        && ((a + 0x2000) as u64) & 0x3fff == 0) by (bit_vector);
    assert(a < 0x100_0000_0000_0000 && a & 0x3fff == 0x1000 ==> ((a + 0x1000) as u64) & 0x3fff != 0
        && ((a + 0x2000) as u64) & 0x3fff != 0 && ((a + 0x3000) as u64) & 0x3fff == 0) by (bit_vector);
    assert(a < 0x100_0000_0000_0000 && a & 0x3fff != 0 ==> a & 0x3fff != 0) by (bit_vector);
}

/// Allocates pages until one lies on a 16 KiB boundary, then three more, so
/// that the four pages from the returned one on can hold a root table of the
/// guest stage.
pub fn alloc_16(allocator: &mut PageAllocator, mem: &mut PhysMemory) -> (r: Page)
    requires
        old(allocator)@.next_page() & 0xfff == 0,
        old(allocator)@.can_alloc(pages_to_16k(old(allocator)@.next_page()) + 4),
    ensures
        r@ == old(allocator)@.next_page() + 4096 * pages_to_16k(old(allocator)@.next_page()),
        r@ & 0x3fff == 0,
        final(allocator)@ == old(allocator)@.advanced(pages_to_16k(old(allocator)@.next_page()) + 4),
        final(mem)@ == mem_clear_pages(
            old(mem)@,
            old(allocator)@.next_page(),
            pages_to_16k(old(allocator)@.next_page()) + 4,
        ),
{
    proof {
        use_type_invariant(&*allocator);
    }
    let ghost a0 = allocator@;
    let ghost m0 = mem@;
    let ghost start = a0.next_page();
    let ghost skip = pages_to_16k(start);
    let mut root_page = alloc_page(allocator, mem);
    let ghost mut k: u64 = 0;
    assert(mem_clear_pages(m0, start, 0) == m0);
    proof {
        lemma_pages_to_16k(start, 0);
    }
    while root_page.address().to_usize() & (0x3fff as u64) > 0
        invariant
            a0.wf(),
            a0.can_alloc(skip + 4),
            start == a0.next_page(),
            start & 0xfff == 0,
            skip == pages_to_16k(start),
            k <= skip,
            root_page@ == start + 4096 * k,
            allocator@ == a0.advanced(k as nat + 1),
            mem@ == mem_clear_pages(m0, start, k as nat + 1),
            ((root_page@ & 0x3fff) == 0) == (k == skip),
        decreases skip - k,
    {
        root_page = alloc_page(allocator, mem);
        proof {
            k = (k + 1) as u64;
            lemma_pages_to_16k(start, k);
        }
    }
    let p1 = alloc_page(allocator, mem);
    assert(p1@ == start + 4096 * (skip + 1));
    assert(mem@ == mem_clear_pages(m0, start, skip + 2));
    let p2 = alloc_page(allocator, mem);
    assert(p2@ == start + 4096 * (skip + 2));
    assert(mem@ == mem_clear_pages(m0, start, skip + 3));
    let p3 = alloc_page(allocator, mem);
    assert(p3@ == start + 4096 * (skip + 3));
    assert(mem@ == mem_clear_pages(m0, start, skip + 4));
    root_page
}


// Page Table Entry
/////

/// Bits 10 to 18 of an entry: the first part of the physical page number.
pub open spec fn pte_ppn0(v: u64) -> u64 {
    (v >> 10) & 0x1ff
}

/// Bits 19 to 27 of an entry.
pub open spec fn pte_ppn1(v: u64) -> u64 {
    (v >> 19) & 0x1ff
}

/// Bits 28 to 53 of an entry.
pub open spec fn pte_ppn2(v: u64) -> u64 {
    (v >> 28) & 0x3ff_ffff
}

/// Bits 0 to 8 of an entry: the flags.
pub open spec fn pte_flags(v: u64) -> u16 {
    (v & 0x1ff) as u16
}

/// The word that an entry with these fields is stored as: the fields at their
/// places, and bits 54 to 63 copies of the top bit of the last part of the
/// page number.
pub open spec fn encode_pte(p0: u64, p1: u64, p2: u64, flags: u16) -> u64 {
    (if (p2 >> 25u64) & 1 > 0 { 0x3ffu64 << 54u64 } else { 0u64 }) | (p2 << 28u64) | (p1 << 19u64)
        | (p0 << 10u64) | (flags as u64)
}

/// Address of the page that page number parts point to.
pub open spec fn table_address(p0: u64, p1: u64, p2: u64) -> u64 {
    (p2 << 30u64) | (p1 << 21u64) | (p0 << 12u64)
}

/// The word that is stored when an entry is made from `v` and written back.
pub open spec fn stored_word(v: u64) -> u64 {
    encode_pte(pte_ppn0(v), pte_ppn1(v), pte_ppn2(v), pte_flags(v))
}

/// A stored entry is valid when its lowest bit is set.
pub open spec fn word_valid(w: u64) -> bool {
    w & 1 != 0
}

/// Address of the page that a stored entry points to.
pub open spec fn word_next(w: u64) -> u64 {
    table_address(pte_ppn0(w), pte_ppn1(w), pte_ppn2(w))
}

pub enum PageTableEntryFlag {
    Valid,
    Read,
    Write,
    Execute,
    User,
    Global,
    Access,
    Dirty,
}

impl PageTableEntryFlag {
    /// The bit of the flag in an entry.
    pub open spec fn mask(self) -> u16 {
        match self {
            PageTableEntryFlag::Valid => 1,
            PageTableEntryFlag::Read => 2,
            PageTableEntryFlag::Write => 4,
            PageTableEntryFlag::Execute => 8,
            PageTableEntryFlag::User => 16,
            PageTableEntryFlag::Global => 32,
            PageTableEntryFlag::Access => 64,
            PageTableEntryFlag::Dirty => 128,
        }
    }

    pub fn bits(&self) -> (r: u16)
        ensures
            r == self.mask(),
    {
        match self {
            PageTableEntryFlag::Valid => 1,
            PageTableEntryFlag::Read => 2,
            PageTableEntryFlag::Write => 4,
            PageTableEntryFlag::Execute => 8,
            PageTableEntryFlag::User => 16,
            PageTableEntryFlag::Global => 32,
            PageTableEntryFlag::Access => 64,
            PageTableEntryFlag::Dirty => 128,
        }
    }
}

pub struct PageTableEntry {
    pub ppn: [u64; 3],
    pub flags: u16,
}

impl PageTableEntry {
    /// The entry holds the fields of the word `v`.
    pub open spec fn decodes(&self, v: u64) -> bool {
        &&& self.ppn[0] == pte_ppn0(v)
        &&& self.ppn[1] == pte_ppn1(v)
        &&& self.ppn[2] == pte_ppn2(v)
        &&& self.flags == pte_flags(v)
    }

    pub open spec fn encoded(&self) -> u64 {
        encode_pte(self.ppn[0], self.ppn[1], self.ppn[2], self.flags)
    }

    pub open spec fn next_address(&self) -> u64 {
        table_address(self.ppn[0], self.ppn[1], self.ppn[2])
    }

    pub fn from_value(v: u64) -> (r: PageTableEntry)
        ensures
            r.decodes(v),
    {
        let ppn = [(v >> 10) & 0x1ff, (v >> 19) & 0x1ff, (v >> 28) & 0x3ff_ffff];
        PageTableEntry { ppn: ppn, flags: (v & (0x1ff as u64)) as u16 }
    }

    /// The entry stored in memory at `paddr`.
    pub fn from_memory(mem: &PhysMemory, paddr: PhysicalAddress) -> (r: PageTableEntry)
        ensures
            r.decodes((mem@)(paddr@)),
    {
        let entry = mem.read(paddr.to_usize());
        PageTableEntry::from_value(entry)
    }

    pub fn to_usize(&self) -> (r: u64)
        ensures
            r == self.encoded(),
    {
        (if (self.ppn[2] >> 25) & 1 > 0 {
            0x3ff << 54
        } else {
            0
        }) | (self.ppn[2] << 28) | (self.ppn[1] << 19) | (self.ppn[0] << 10) | (self.flags as u64)
    }

    pub fn next_page(&self) -> (r: Page)
        ensures
            r@ == self.next_address(),
    {
        Page::from_address(
            PhysicalAddress::new((self.ppn[2] << 30) | (self.ppn[1] << 21) | (self.ppn[0] << 12)),
        )
    }

    pub fn set_flag(&mut self, flag: PageTableEntryFlag)
        ensures
            final(self).ppn == old(self).ppn,
            final(self).flags == old(self).flags | flag.mask(),
    {
        self.flags = self.flags | flag.bits();
    }

    pub fn is_valid(&self) -> (r: bool)
        ensures
            r == (self.flags & 1 != 0),
    {
        self.flags & PageTableEntryFlag::Valid.bits() != 0
    }

    /// A leaf has one or more of the read, write and execute bits set.
    pub fn is_leaf(&self) -> (r: bool)
        ensures
            r == (self.flags & 0xe != 0),
    {
        self.flags & 0xe != 0
    }

    pub fn is_branch(&self) -> (r: bool)
        ensures
            r == (self.flags & 0xe == 0),
    {
        !self.is_leaf()
    }
}

/// Storing an entry whose fields fit their widths and reading it back gives
/// the same fields.
pub proof fn lemma_entry_roundtrip(p0: u64, p1: u64, p2: u64, flags: u16)
    requires
        p0 < 512,
        p1 < 512,
        p2 < 0x400_0000,
        flags < 512,
    ensures
        pte_ppn0(encode_pte(p0, p1, p2, flags)) == p0,
        pte_ppn1(encode_pte(p0, p1, p2, flags)) == p1,
        pte_ppn2(encode_pte(p0, p1, p2, flags)) == p2,
        pte_flags(encode_pte(p0, p1, p2, flags)) == flags,
{
    let f = flags as u64;
    let hi: u64 = if (p2 >> 25u64) & 1 > 0 { 0x3ffu64 << 54u64 } else { 0u64 };
    assert(hi == 0 || hi == 0x3ffu64 << 54u64);
    assert(p0 < 512 && p1 < 512 && p2 < 0x400_0000 && f < 512 && (hi == 0 || hi == 0x3ffu64
        << 54u64) ==> {
        let w = hi | (p2 << 28u64) | (p1 << 19u64) | (p0 << 10u64) | f;
        &&& (w >> 10) & 0x1ff == p0
        &&& (w >> 19) & 0x1ff == p1
        &&& (w >> 28) & 0x3ff_ffff == p2
        &&& w & 0x1ff == f
    }) by (bit_vector);
}

/// Making an entry from a word and storing it gives the word back exactly
/// when bit 9 of the word is clear and bits 53 to 63 are all equal.
pub proof fn lemma_word_roundtrip(v: u64)
    ensures
        (stored_word(v) == v) == (v & 0x200 == 0 && (v >> 53u64 == 0 || v >> 53u64 == 0x7ff)),
{
    let p2 = (v >> 28u64) & 0x3ff_ffff;
    lemma_flags_cast(v);
    if (p2 >> 25u64) & 1 > 0 {
        lemma_word_roundtrip_high(v);
    } else {
        lemma_word_roundtrip_low(v);
    }
}

proof fn lemma_flags_cast(v: u64)
    ensures
        (pte_flags(v) as u64) == v & 0x1ff,
        (pte_flags(v) & 1 != 0) == (v & 1 != 0),
{
    assert(((v & 0x1ff) as u16) as u64 == v & 0x1ff) by (bit_vector);
    assert((((v & 0x1ff) as u16) & 1u16 != 0u16) == (v & 1 != 0)) by (bit_vector);
}

proof fn lemma_word_roundtrip_high(v: u64) by (bit_vector)
    requires
        ((v >> 28u64) & 0x3ff_ffff) >> 25u64 & 1u64 > 0u64,
    ensures
        ((0x3ffu64 << 54u64) | (((v >> 28u64) & 0x3ff_ffff) << 28u64) | (((v >> 19u64) & 0x1ff)
            << 19u64) | (((v >> 10u64) & 0x1ff) << 10u64) | (v & 0x1ff)) == v <==> (v & 0x200 == 0
            && (v >> 53u64 == 0 || v >> 53u64 == 0x7ff)),
{
}

proof fn lemma_word_roundtrip_low(v: u64) by (bit_vector)
    requires
        !(((v >> 28u64) & 0x3ff_ffff) >> 25u64 & 1u64 > 0u64),
    ensures
        (0u64 | (((v >> 28u64) & 0x3ff_ffff) << 28u64) | (((v >> 19u64) & 0x1ff) << 19u64) | (((v
            >> 10u64) & 0x1ff) << 10u64) | (v & 0x1ff)) == v <==> (v & 0x200 == 0 && (v >> 53u64
            == 0 || v >> 53u64 == 0x7ff)),
{
}


// Page Table
/////

/// Address of entry `i` of the table at `table`.
pub open spec fn entry_addr(table: u64, i: u64) -> u64 {
    (table + 8 * i) as u64
}

/// The root table, with up to 2048 entries, lies below the top of the
/// address space.
pub open spec fn table_fits(table: u64) -> bool {
    table + 8 * 2048 <= u64::MAX
}

/// Result of an arithmetic right shift by two of `x` read as a signed number.
pub open spec fn signed_shr2(x: u64) -> u64 {
    if x < 0x8000_0000_0000_0000 {
        x >> 2u64
    } else {
        (x >> 2u64) | 0xc000_0000_0000_0000
    }
}

/// The word stored for a leaf entry that maps the page at `dest` with the
/// permission bits `perm` (valid, accessed and dirty are always set).
pub open spec fn leaf_word(dest: u64, perm: u16) -> u64 {
    stored_word(signed_shr2(dest) | 1u64 | 0x80u64 | 0x40u64 | (perm as u64))
}

/// The word stored for an entry that points to the table at `page`.
pub open spec fn branch_word(page: u64) -> u64 {
    stored_word(signed_shr2(page) | 1u64)
}

/// The physical address that a walk from the table at `table`, at the given
/// level, translates `va` to; `None` where it meets an invalid entry.
pub open spec fn resolve_walk(m: spec_fn(u64) -> u64, table: u64, va: u64, level: nat) -> Option<u64>
    decreases level,
{
    let w = m(entry_addr(table, vpn_index(va, level)));
    if !word_valid(w) {
        None
    } else if level == 0 {
        Some(word_next(w) | (va & 0xfff))
    } else {
        resolve_walk(m, word_next(w), va, (level - 1) as nat)
    }
}

/// The word of the last-level entry that a walk of `va` from the root table
/// `root` reads.
pub open spec fn leaf_of(m: spec_fn(u64) -> u64, root: u64, va: u64) -> u64 {
    let t1 = word_next(m(entry_addr(root, vpn_index(va, 2))));
    let t0 = word_next(m(entry_addr(t1, vpn_index(va, 1))));
    m(entry_addr(t0, vpn_index(va, 0)))
}

/// Memory and allocator after mapping `va` to the page at `dest`, walking
/// from the table at `table` at the given level: each invalid entry on the
/// way gets a fresh zeroed table, and the entry of the last level becomes a
/// leaf.
pub open spec fn map_walk(
    m: spec_fn(u64) -> u64,
    al: AllocState,
    table: u64,
    va: u64,
    dest: u64,
    perm: u16,
    level: nat,
) -> (spec_fn(u64) -> u64, AllocState)
    decreases level,
{
    let a = entry_addr(table, vpn_index(va, level));
    if level == 0 {
        (mem_write(m, a, leaf_word(dest, perm)), al)
    } else if !word_valid(m(a)) {
        let p = al.next_page();
        map_walk(
            mem_write(mem_clear_page(m, p), a, branch_word(p)),
            al.advanced(1),
            p,
            va,
            dest,
            perm,
            (level - 1) as nat,
        )
    } else {
        map_walk(m, al, word_next(m(a)), va, dest, perm, (level - 1) as nat)
    }
}

/// Number of pages that mapping `va` from the table at `table` at the given
/// level takes: one for each invalid entry on the way, whose fresh zeroed
/// table the walk then goes on through.
pub open spec fn map_pages(
    m: spec_fn(u64) -> u64,
    al: AllocState,
    table: u64,
    va: u64,
    level: nat,
) -> nat
    decreases level,
{
    let a = entry_addr(table, vpn_index(va, level));
    if level == 0 {
        0
    } else if !word_valid(m(a)) {
        let p = al.next_page();
        1 + map_pages(
            mem_write(mem_clear_page(m, p), a, branch_word(p)),
            al.advanced(1),
            p,
            va,
            (level - 1) as nat,
        )
    } else {
        map_pages(m, al, word_next(m(a)), va, (level - 1) as nat)
    }
}

/// Every page that an entry points to lies below 2^56.
pub proof fn lemma_word_next_bound(w: u64)
    ensures
        word_next(w) < 0x100_0000_0000_0000,
{
    assert(((((w >> 28u64) & 0x3ff_ffff) << 30u64) | (((w >> 19u64) & 0x1ff) << 21u64) | (((w
        >> 10u64) & 0x1ff) << 12u64)) < 0x100_0000_0000_0000u64) by (bit_vector);
}

/// The index of each level fits its table.
pub proof fn lemma_vpn_bound(va: u64, level: nat)
    ensures
        vpn_index(va, level) < 2048,
        level < 2 ==> vpn_index(va, level) < 512,
{
    assert((va >> 12u64) & 0x1ff < 512) by (bit_vector);
    assert((va >> 21u64) & 0x1ff < 512) by (bit_vector);
    assert((va >> 30u64) & 0x7ff < 2048) by (bit_vector);
}

pub struct PageTable {
    pub page: Page,
}

impl PageTable {
    fn set_entry(&self, mem: &mut PhysMemory, i: u64, entry: PageTableEntry)
        requires
            i < 2048,
            table_fits(self.page@),
        ensures
            final(mem)@ == mem_write(old(mem)@, entry_addr(self.page@, i), entry.encoded()),
    {
        let addr = self.page.address().to_usize() + 8 * i;
        mem.write(addr, entry.to_usize());
    }

    fn get_entry(&self, mem: &PhysMemory, i: u64) -> (r: PageTableEntry)
        requires
            i < 2048,
            table_fits(self.page@),
        ensures
            r.decodes((mem@)(entry_addr(self.page@, i))),
    {
        let addr = self.page.address().to_usize() + 8 * i;
        PageTableEntry::from_value(mem.read(addr))
    }

    pub fn from_page(page: Page) -> (r: PageTable)
        ensures
            r.page@ == page@,
    {
        PageTable { page: page }
    }

    /// Translates `vaddr` by walking the three levels from this root table.
    pub fn resolve(&self, mem: &PhysMemory, vaddr: &VirtualAddress) -> (r: PhysicalAddress)
        requires
            table_fits(self.page@),
            resolve_walk(mem@, self.page@, vaddr@, 2) is Some,
        ensures
            resolve_walk(mem@, self.page@, vaddr@, 2) == Some(r@),
    {
        self.resolve_intl(mem, vaddr, self, 2)
    }

    fn resolve_intl(&self, mem: &PhysMemory, vaddr: &VirtualAddress, pt: &PageTable, level: usize) -> (r:
        PhysicalAddress)
        requires
            level <= 2,
            table_fits(pt.page@),
            resolve_walk(mem@, pt.page@, vaddr@, level as nat) is Some,
        ensures
            resolve_walk(mem@, pt.page@, vaddr@, level as nat) == Some(r@),
        decreases level,
    {
        let vpn = vaddr.to_vpn();
        proof {
            lemma_vpn_bound(vaddr@, level as nat);
        }
        let idx = vpn[level];
        assert(idx == vpn_index(vaddr@, level as nat));
        let entry = pt.get_entry(mem, idx);
        let ghost w = (mem@)(entry_addr(pt.page@, idx));
        proof {
            lemma_flags_cast(w);
            lemma_word_next_bound(w);
        }
        if level == 0 {
            let addr_base = entry.next_page().address().to_usize();
            PhysicalAddress::new(addr_base | vaddr.to_offset())
        } else {
            let next_page = entry.next_page();
            let new_pt = PageTable::from_page(next_page);
            self.resolve_intl(mem, vaddr, &new_pt, level - 1)
        }
    }

    /// Maps `vaddr` to the page `dest` with the permission bits `perm`,
    /// allocating the missing tables on the way.
    pub fn map(
        &self,
        mem: &mut PhysMemory,
        allocator: &mut PageAllocator,
        vaddr: VirtualAddress,
        dest: &Page,
        perm: u16,
    )
        requires
            table_fits(self.page@),
            old(allocator)@.can_alloc(map_pages(old(mem)@, old(allocator)@, self.page@, vaddr@, 2)),
        ensures
            (final(mem)@, final(allocator)@) == map_walk(
                old(mem)@,
                old(allocator)@,
                self.page@,
                vaddr@,
                dest@,
                perm,
                2,
            ),
    {
        self.map_intl(mem, allocator, vaddr, dest, self, perm, 2)
    }

    fn map_intl(
        &self,
        mem: &mut PhysMemory,
        allocator: &mut PageAllocator,
        vaddr: VirtualAddress,
        dest: &Page,
        pt: &PageTable,
        perm: u16,
        level: usize,
    )
        requires
            level <= 2,
            table_fits(pt.page@),
            old(allocator)@.can_alloc(
                map_pages(old(mem)@, old(allocator)@, pt.page@, vaddr@, level as nat),
            ),
        ensures
            (final(mem)@, final(allocator)@) == map_walk(
                old(mem)@,
                old(allocator)@,
                pt.page@,
                vaddr@,
                dest@,
                perm,
                level as nat,
            ),
        decreases level,
    {
        proof {
            use_type_invariant(&*allocator);
        }
        let vpn = vaddr.to_vpn();
        proof {
            lemma_vpn_bound(vaddr@, level as nat);
        }
        if level == 0 {
            let d = dest.address().to_usize();
            let shifted = if d < 0x8000_0000_0000_0000 {
                d >> 2
            } else {
                (d >> 2) | 0xc000_0000_0000_0000
            };
            let new_entry = PageTableEntry::from_value(
                shifted | (PageTableEntryFlag::Valid.bits() as u64) | (
                PageTableEntryFlag::Dirty.bits() as u64) | (PageTableEntryFlag::Access.bits() as u64)
                    | (perm as u64),
            );
            pt.set_entry(mem, vpn[0], new_entry);
        } else {
            let idx = vpn[level];
            assert(idx == vpn_index(vaddr@, level as nat));
            let entry = pt.get_entry(mem, idx);
            let ghost w = (mem@)(entry_addr(pt.page@, idx));
            proof {
                lemma_flags_cast(w);
                lemma_word_next_bound(w);
            }
            if !entry.is_valid() {
                proof {
                    let mp = map_pages(mem@, allocator@, pt.page@, vaddr@, level as nat);
                    lemma_can_alloc_split(allocator@, 1, (mp - 1) as nat);
                }
                let new_page = alloc_page(allocator, mem);
                let a = new_page.address().to_usize();
                let shifted = if a < 0x8000_0000_0000_0000 {
                    a >> 2
                } else {
                    (a >> 2) | 0xc000_0000_0000_0000
                };
                let new_entry = PageTableEntry::from_value(
                    shifted | (PageTableEntryFlag::Valid.bits() as u64),
                );
                pt.set_entry(mem, idx, new_entry);
                let new_pt = PageTable::from_page(new_page);
                self.map_intl(mem, allocator, vaddr, dest, &new_pt, perm, level - 1);
            } else {
                let next_page = entry.next_page();
                let new_pt = PageTable::from_page(next_page);
                self.map_intl(mem, allocator, vaddr, dest, &new_pt, perm, level - 1);
            };
        }
    }
}


// Laws of the page table
/////

/// A stored entry keeps validity and the address it points to.
pub proof fn lemma_stored_word(x: u64)
    ensures
        word_valid(stored_word(x)) == word_valid(x),
        word_next(stored_word(x)) == word_next(x),
{
    assert((x >> 10u64) & 0x1ff < 512) by (bit_vector);
    assert((x >> 19u64) & 0x1ff < 512) by (bit_vector);
    assert((x >> 28u64) & 0x3ff_ffff < 0x400_0000) by (bit_vector);
    assert(((x & 0x1ff) as u16) < 512) by (bit_vector);
    lemma_entry_roundtrip(pte_ppn0(x), pte_ppn1(x), pte_ppn2(x), pte_flags(x));
    lemma_flags_cast(x);
    lemma_flags_cast(stored_word(x));
}

/// An entry made for a fresh table at a page-aligned address below 2^56 is
/// valid and points to that table.
pub proof fn lemma_branch_word(p: u64)
    requires
        p % 4096 == 0,
        p < 0x100_0000_0000_0000,
    ensures
        word_valid(branch_word(p)),
        word_next(branch_word(p)) == p,
{
    lemma_stored_word(signed_shr2(p) | 1u64);
    assert(p % 4096 == 0 && p < 0x100_0000_0000_0000 ==> {
        let x = (p >> 2u64) | 1u64;
        &&& x & 1 != 0
        &&& ((((x >> 28u64) & 0x3ff_ffff) << 30u64) | (((x >> 19u64) & 0x1ff) << 21u64) | (((x
            >> 10u64) & 0x1ff) << 12u64)) == p
    }) by (bit_vector);
}

/// A leaf entry is always valid; for a page-aligned destination below 2^56
/// and permission bits below bit 10 it points to the destination.
pub proof fn lemma_leaf_word(dest: u64, perm: u16)
    ensures
        word_valid(leaf_word(dest, perm)),
        dest % 4096 == 0 && dest < 0x100_0000_0000_0000 && perm < 1024 ==> word_next(
            leaf_word(dest, perm),
        ) == dest,
{
    let x = signed_shr2(dest) | 1u64 | 0x80u64 | 0x40u64 | (perm as u64);
    lemma_stored_word(x);
    let pp = perm as u64;
    assert(x & 1 != 0) by (bit_vector)
        requires
            x == signed_shr2(dest) | 1u64 | 0x80u64 | 0x40u64 | pp,
    ;
    if dest % 4096 == 0 && dest < 0x100_0000_0000_0000 && perm < 1024 {
        assert(dest % 4096 == 0 && dest < 0x100_0000_0000_0000 && pp < 1024 ==> {
            let y = (dest >> 2u64) | 1u64 | 0x80u64 | 0x40u64 | pp;
            ((((y >> 28u64) & 0x3ff_ffff) << 30u64) | (((y >> 19u64) & 0x1ff) << 21u64) | (((y
                >> 10u64) & 0x1ff) << 12u64)) == dest
        }) by (bit_vector);
    }
}

/// A leaf entry made for a page-aligned destination carries the
/// permission bits (read, write, execute) that it was made with.
pub proof fn lemma_leaf_word_perm(dest: u64, perm: u16)
    requires
        dest % 4096 == 0,
    ensures
        leaf_word(dest, perm) & 0xe == (perm as u64) & 0xe,
{
    let pp = perm as u64;
    assert(dest % 4096 == 0 ==> stored_word(signed_shr2(dest) | 1u64 | 0x80u64 | 0x40u64 | pp) & 0xe
        == pp & 0xe) by (bit_vector);
}

/// The physical address that the report gives for a leaf entry lies in the
/// page the entry points to, up to the copies of its top bit above bit 55.
pub proof fn lemma_leaf_phys(w: u64)
    ensures
        leaf_phys(w) & 0xff_ffff_ffff_f000 == word_next(w),
{
    assert(leaf_phys(w) & 0xff_ffff_ffff_f000 == word_next(w)) by (bit_vector);
}

/// The writes of mapping `va` from the root table `root` touch distinct
/// words, and a table allocated at the middle level does not cover the entry
/// written at the root.
pub open spec fn map_separated(m: spec_fn(u64) -> u64, al: AllocState, root: u64, va: u64) -> bool {
    let a2 = entry_addr(root, vpn_index(va, 2));
    let fresh1 = !word_valid(m(a2));
    let t1 = if fresh1 { al.next_page() } else { word_next(m(a2)) };
    let m1 = if fresh1 { mem_write(mem_clear_page(m, t1), a2, branch_word(t1)) } else { m };
    let al1 = if fresh1 { al.advanced(1) } else { al };
    let a1 = entry_addr(t1, vpn_index(va, 1));
    let fresh0 = !word_valid(m1(a1));
    let t0 = if fresh0 { al1.next_page() } else { word_next(m1(a1)) };
    let a0 = entry_addr(t0, vpn_index(va, 0));
    &&& a0 != a1
    &&& a0 != a2
    &&& a1 != a2
    &&& fresh0 ==> !in_page(t0, a2)
}

/// With a page-aligned base, the next page of an allocator below 2^64 is
/// page aligned.
pub proof fn lemma_next_page_aligned(a: AllocState)
    requires
        a.base_addr % 4096 == 0,
        a.base_addr + 4096 * a.last_index <= u64::MAX,
    ensures
        a.next_page() % 4096 == 0,
        a.next_page() == a.base_addr + 4096 * a.last_index,
{
    assert((a.base_addr + 4096 * a.last_index) % 4096 == 0) by (nonlinear_arith)
        requires
            a.base_addr % 4096 == 0,
    ;
}

/// Mapping a virtual address and then resolving it gives the page of the leaf
/// entry with the offset of the virtual address within its page, when the words that
/// the mapping writes do not overlap.
pub proof fn lemma_map_then_resolve(
    m: spec_fn(u64) -> u64,
    al: AllocState,
    root: u64,
    va: u64,
    dest: u64,
    perm: u16,
)
    requires
        table_fits(root),
        al.wf(),
        al.can_alloc(map_pages(m, al, root, va, 2)),
        al.base_addr % 4096 == 0,
        map_separated(m, al, root, va),
    ensures
        resolve_walk(map_walk(m, al, root, va, dest, perm, 2).0, root, va, 2) == Some(
            word_next(leaf_word(dest, perm)) | (va & 0xfff),
        ),
        dest % 4096 == 0 && dest < 0x100_0000_0000_0000 && perm < 1024 ==> resolve_walk(
            map_walk(m, al, root, va, dest, perm, 2).0,
            root,
            va,
            2,
        ) == Some(dest | (va & 0xfff)),
        leaf_of(map_walk(m, al, root, va, dest, perm, 2).0, root, va) == leaf_word(dest, perm),
{
    let a2 = entry_addr(root, vpn_index(va, 2));
    let fresh1 = !word_valid(m(a2));
    let t1 = if fresh1 { al.next_page() } else { word_next(m(a2)) };
    let m1 = if fresh1 { mem_write(mem_clear_page(m, t1), a2, branch_word(t1)) } else { m };
    let al1 = if fresh1 { al.advanced(1) } else { al };
    let a1 = entry_addr(t1, vpn_index(va, 1));
    let fresh0 = !word_valid(m1(a1));
    let t0 = if fresh0 { al1.next_page() } else { word_next(m1(a1)) };
    let m2 = if fresh0 { mem_write(mem_clear_page(m1, t0), a1, branch_word(t0)) } else { m1 };
    let al2 = if fresh0 { al1.advanced(1) } else { al1 };
    let a0 = entry_addr(t0, vpn_index(va, 0));
    let m3 = mem_write(m2, a0, leaf_word(dest, perm));

    assert(map_walk(m, al, root, va, dest, perm, 2) == map_walk(m1, al1, t1, va, dest, perm, 1));
    assert(map_walk(m1, al1, t1, va, dest, perm, 1) == map_walk(m2, al2, t0, va, dest, perm, 0));
    assert(map_walk(m2, al2, t0, va, dest, perm, 0).0 == m3);
    assert(map_pages(m2, al2, t0, va, 0) == 0);
    assert(map_pages(m1, al1, t1, va, 1) == (if fresh0 { 1nat } else { 0nat }));
    assert(map_pages(m, al, root, va, 2) == (if fresh1 { 1nat } else { 0nat }) + (if fresh0 {
        1nat
    } else {
        0nat
    }));

    lemma_word_next_bound(m(a2));
    if fresh1 {
        lemma_next_page_aligned(al);
        lemma_branch_word(t1);
    }
    lemma_word_next_bound(m1(a1));
    if fresh0 {
        lemma_next_page_aligned(al1);
        lemma_branch_word(t0);
    }
    lemma_leaf_word(dest, perm);

    assert(m3(a2) == m1(a2));
    assert(word_valid(m3(a2)) && word_next(m3(a2)) == t1);
    assert(m3(a1) == m2(a1));
    assert(word_valid(m3(a1)) && word_next(m3(a1)) == t0);
    assert(m3(a0) == leaf_word(dest, perm));
    assert(resolve_walk(m3, t0, va, 0) == Some(word_next(leaf_word(dest, perm)) | (va & 0xfff)));
    assert(resolve_walk(m3, t1, va, 1) == resolve_walk(m3, t0, va, 0));
    assert(resolve_walk(m3, root, va, 2) == resolve_walk(m3, t1, va, 1));
}


/// `a` is a word that mapping `va` from the table at `table` at the given
/// level writes: an entry that it fills in, or a word of a table it
/// allocates.
pub open spec fn map_touches(
    m: spec_fn(u64) -> u64,
    al: AllocState,
    table: u64,
    va: u64,
    level: nat,
    a: u64,
) -> bool
    decreases level,
{
    let e = entry_addr(table, vpn_index(va, level));
    if level == 0 {
        a == e
    } else if !word_valid(m(e)) {
        let p = al.next_page();
        a == e || in_page(p, a) || map_touches(
            mem_write(mem_clear_page(m, p), e, branch_word(p)),
            al.advanced(1),
            p,
            va,
            (level - 1) as nat,
            a,
        )
    } else {
        map_touches(m, al, word_next(m(e)), va, (level - 1) as nat, a)
    }
}

/// `a` is a word that resolving `va` from the table at `table` at the given
/// level reads.
pub open spec fn resolve_reads(m: spec_fn(u64) -> u64, table: u64, va: u64, level: nat, a: u64) -> bool
    decreases level,
{
    let e = entry_addr(table, vpn_index(va, level));
    a == e || (level > 0 && word_valid(m(e)) && resolve_reads(
        m,
        word_next(m(e)),
        va,
        (level - 1) as nat,
        a,
    ))
}

/// Mapping changes no word that it does not touch.
pub proof fn lemma_map_walk_frame(
    m: spec_fn(u64) -> u64,
    al: AllocState,
    table: u64,
    va: u64,
    dest: u64,
    perm: u16,
    level: nat,
    a: u64,
)
    requires
        !map_touches(m, al, table, va, level, a),
    ensures
        (map_walk(m, al, table, va, dest, perm, level).0)(a) == m(a),
    decreases level,
{
    let e = entry_addr(table, vpn_index(va, level));
    if level > 0 {
        if !word_valid(m(e)) {
            let p = al.next_page();
            lemma_map_walk_frame(
                mem_write(mem_clear_page(m, p), e, branch_word(p)),
                al.advanced(1),
                p,
                va,
                dest,
                perm,
                (level - 1) as nat,
                a,
            );
        } else {
            lemma_map_walk_frame(m, al, word_next(m(e)), va, dest, perm, (level - 1) as nat, a);
        }
    }
}

/// Resolving depends on no word but the ones it reads.
pub proof fn lemma_resolve_walk_frame(
    m1: spec_fn(u64) -> u64,
    m2: spec_fn(u64) -> u64,
    table: u64,
    va: u64,
    level: nat,
)
    requires
        forall|a: u64| #[trigger] resolve_reads(m1, table, va, level, a) ==> m1(a) == m2(a),
    ensures
        resolve_walk(m2, table, va, level) == resolve_walk(m1, table, va, level),
    decreases level,
{
    let e = entry_addr(table, vpn_index(va, level));
    assert(resolve_reads(m1, table, va, level, e));
    if level > 0 && word_valid(m1(e)) {
        assert forall|a: u64| #[trigger]
            resolve_reads(m1, word_next(m1(e)), va, (level - 1) as nat, a) implies m1(a) == m2(a) by {
            assert(resolve_reads(m1, table, va, level, a));
        }
        lemma_resolve_walk_frame(m1, m2, word_next(m1(e)), va, (level - 1) as nat);
    }
}

/// Mapping one address keeps the translation of every address whose walk
/// reads no word that the mapping writes.
pub proof fn lemma_map_keeps_other_translations(
    m: spec_fn(u64) -> u64,
    al: AllocState,
    root: u64,
    va: u64,
    dest: u64,
    perm: u16,
    other: u64,
)
    requires
        forall|a: u64| #[trigger] resolve_reads(m, root, other, 2, a) ==> !map_touches(m, al, root, va, 2, a),
    ensures
        resolve_walk(map_walk(m, al, root, va, dest, perm, 2).0, root, other, 2) == resolve_walk(
            m,
            root,
            other,
            2,
        ),
{
    let m2 = map_walk(m, al, root, va, dest, perm, 2).0;
    assert forall|a: u64| #[trigger] resolve_reads(m, root, other, 2, a) implies m(a) == m2(a) by {
        lemma_map_walk_frame(m, al, root, va, dest, perm, 2, a);
    }
    lemma_resolve_walk_frame(m, m2, root, other, 2);
}

/// Mapping one address takes at most one page for each level it walks
/// through.
pub proof fn lemma_map_pages_bound(m: spec_fn(u64) -> u64, al: AllocState, table: u64, va: u64, level: nat)
    ensures
        map_pages(m, al, table, va, level) <= level,
    decreases level,
{
    if level > 0 {
        let a = entry_addr(table, vpn_index(va, level));
        if !word_valid(m(a)) {
            let p = al.next_page();
            lemma_map_pages_bound(
                mem_write(mem_clear_page(m, p), a, branch_word(p)),
                al.advanced(1),
                p,
                va,
                (level - 1) as nat,
            );
        } else {
            lemma_map_pages_bound(m, al, word_next(m(a)), va, (level - 1) as nat);
        }
    }
}

/// Mapping one address takes exactly the pages that it counts, one after
/// another from the allocator.
pub proof fn lemma_map_walk_alloc(
    m: spec_fn(u64) -> u64,
    al: AllocState,
    table: u64,
    va: u64,
    dest: u64,
    perm: u16,
    level: nat,
)
    requires
        al.can_alloc(map_pages(m, al, table, va, level)),
    ensures
        map_walk(m, al, table, va, dest, perm, level).1 == al.advanced(
            map_pages(m, al, table, va, level),
        ),
    decreases level,
{
    if level > 0 {
        let a = entry_addr(table, vpn_index(va, level));
        if !word_valid(m(a)) {
            let p = al.next_page();
            let m1 = mem_write(mem_clear_page(m, p), a, branch_word(p));
            lemma_can_alloc_split(al, 1, map_pages(m1, al.advanced(1), p, va, (level - 1) as nat));
            lemma_map_walk_alloc(m1, al.advanced(1), p, va, dest, perm, (level - 1) as nat);
        } else {
            lemma_map_walk_alloc(m, al, word_next(m(a)), va, dest, perm, (level - 1) as nat);
        }
    }
}

/// Memory and allocator after mapping `n` consecutive pages from `first` on
/// to themselves, one after another, with the permission bits `perm`.
pub open spec fn identity_map_range(
    m: spec_fn(u64) -> u64,
    al: AllocState,
    root: u64,
    first: u64,
    n: nat,
    perm: u16,
) -> (spec_fn(u64) -> u64, AllocState)
    decreases n,
{
    if n == 0 {
        (m, al)
    } else {
        let prev = identity_map_range(m, al, root, first, (n - 1) as nat, perm);
        let a = (first + 4096 * (n - 1)) as u64;
        map_walk(prev.0, prev.1, root, a, a, perm, 2)
    }
}

/// Number of pages that mapping `n` consecutive pages from `first` on to
/// themselves takes, one mapping after another.
pub open spec fn identity_map_pages(
    m: spec_fn(u64) -> u64,
    al: AllocState,
    root: u64,
    first: u64,
    n: nat,
    perm: u16,
) -> nat
    decreases n,
{
    if n == 0 {
        0
    } else {
        let prev = identity_map_range(m, al, root, first, (n - 1) as nat, perm);
        let a = (first + 4096 * (n - 1)) as u64;
        identity_map_pages(m, al, root, first, (n - 1) as nat, perm) + map_pages(
            prev.0,
            prev.1,
            root,
            a,
            2,
        )
    }
}

/// Mapping `n` pages to themselves takes at most two pages for each.
pub proof fn lemma_identity_map_pages_bound(
    m: spec_fn(u64) -> u64,
    al: AllocState,
    root: u64,
    first: u64,
    n: nat,
    perm: u16,
)
    ensures
        identity_map_pages(m, al, root, first, n, perm) <= 2 * n,
    decreases n,
{
    if n > 0 {
        let prev = identity_map_range(m, al, root, first, (n - 1) as nat, perm);
        lemma_identity_map_pages_bound(m, al, root, first, (n - 1) as nat, perm);
        lemma_map_pages_bound(prev.0, prev.1, root, (first + 4096 * (n - 1)) as u64, 2);
    }
}

/// Mapping fewer pages takes no more pages.
pub proof fn lemma_identity_map_pages_mono(
    m: spec_fn(u64) -> u64,
    al: AllocState,
    root: u64,
    first: u64,
    i: nat,
    n: nat,
    perm: u16,
)
    requires
        i <= n,
    ensures
        identity_map_pages(m, al, root, first, i, perm) <= identity_map_pages(
            m,
            al,
            root,
            first,
            n,
            perm,
        ),
    decreases n,
{
    if i < n {
        lemma_identity_map_pages_mono(m, al, root, first, i, (n - 1) as nat, perm);
    }
}

/// Mapping `n` pages takes exactly the pages that it counts, one after
/// another from the allocator.
pub proof fn lemma_identity_map_range_alloc(
    m: spec_fn(u64) -> u64,
    al: AllocState,
    root: u64,
    first: u64,
    n: nat,
    perm: u16,
)
    requires
        al.can_alloc(identity_map_pages(m, al, root, first, n, perm)),
    ensures
        identity_map_range(m, al, root, first, n, perm).1 == al.advanced(
            identity_map_pages(m, al, root, first, n, perm),
        ),
    decreases n,
{
    if n > 0 {
        let j = identity_map_pages(m, al, root, first, (n - 1) as nat, perm);
        let prev = identity_map_range(m, al, root, first, (n - 1) as nat, perm);
        let a = (first + 4096 * (n - 1)) as u64;
        let k = map_pages(prev.0, prev.1, root, a, 2);
        lemma_can_alloc_split(al, j, k);
        lemma_identity_map_range_alloc(m, al, root, first, (n - 1) as nat, perm);
        lemma_map_walk_alloc(prev.0, prev.1, root, a, a, perm, 2);
    }
}

/// Maps `n` consecutive pages from `first` on to themselves.
pub fn identity_map(
    pt: &PageTable,
    mem: &mut PhysMemory,
    allocator: &mut PageAllocator,
    first: u64,
    n: u64,
    perm: u16,
)
    requires
        table_fits(pt.page@),
        old(allocator)@.can_alloc(
            identity_map_pages(old(mem)@, old(allocator)@, pt.page@, first, n as nat, perm),
        ),
        first + 4096 * n <= u64::MAX,
    ensures
        (final(mem)@, final(allocator)@) == identity_map_range(
            old(mem)@,
            old(allocator)@,
            pt.page@,
            first,
            n as nat,
            perm,
        ),
{
    let ghost m0 = mem@;
    let ghost a0 = allocator@;
    let mut i: u64 = 0;
    while i < n
        invariant
            i <= n,
            table_fits(pt.page@),
            a0.can_alloc(identity_map_pages(m0, a0, pt.page@, first, n as nat, perm)),
            first + 4096 * n <= u64::MAX,
            (mem@, allocator@) == identity_map_range(m0, a0, pt.page@, first, i as nat, perm),
        decreases n - i,
    {
        proof {
            let j = identity_map_pages(m0, a0, pt.page@, first, i as nat, perm);
            let k = map_pages(mem@, allocator@, pt.page@, (first + 4096 * i) as u64, 2);
            lemma_identity_map_pages_mono(m0, a0, pt.page@, first, (i + 1) as nat, n as nat, perm);
            lemma_can_alloc_less(a0, identity_map_pages(m0, a0, pt.page@, first, n as nat, perm), j + k);
            lemma_can_alloc_split(a0, j, k);
            lemma_identity_map_range_alloc(m0, a0, pt.page@, first, i as nat, perm);
        }
        let vaddr = first + i * 4096;
        let page = Page::from_address(PhysicalAddress::new(vaddr));
        pt.map(mem, allocator, VirtualAddress::new(vaddr), &page, perm);
        i = i + 1;
    }
}


// Report of the page table
/////

/// A line of the report on the mappings of a page table.
#[derive(Clone, Copy, Debug, PartialEq, Eq, Structural)]
pub enum WalkLine {
    /// An empty line.
    Blank,
    /// `...`
    Ellipsis,
    /// `Virt: 0x.. => Phys: 0x..`
    Mapping { virt: u64, phys: u64 },
    /// `Num pages after each other: ..`
    RunLength(u64),
}

/// Where the report stands within the leaf table being walked: the last
/// physical and virtual page reported and the length of the current run of
/// pages that follow each other physically.
#[derive(Clone, Copy, Debug, PartialEq, Eq, Structural)]
pub struct RunState {
    pub phys: u64,
    pub virt: u64,
    pub total: u64,
}

/// The physical address that the report gives for a leaf entry.
pub open spec fn leaf_phys(w: u64) -> u64 {
    (stored_word(w) << 2u64) & !0x3ffu64
}

/// The virtual address that the indices `vpn` select.
pub open spec fn vpn_base(vpn: Seq<u64>) -> u64 {
    (vpn[2] << 30u64) | (vpn[1] << 21u64) | (vpn[0] << 12u64)
}

/// Lines that close a run of pages.
pub open spec fn run_summary(st: RunState) -> Seq<WalkLine> {
    if st.total != 0 {
        seq![
            WalkLine::Ellipsis,
            WalkLine::Mapping { virt: st.virt, phys: st.phys },
            WalkLine::RunLength(st.total),
            WalkLine::Blank,
        ]
    } else {
        seq![]
    }
}

/// Report on the valid leaf entry `i` whose page is at `phys`: a page right
/// after the previous one continues the run; another closes the run and is
/// reported on its own.
pub open spec fn leaf_step(st: RunState, base: u64, i: u64, phys: u64) -> (RunState, Seq<WalkLine>) {
    let virt = (base + i * 4096) as u64;
    if phys - 4096 == st.phys {
        (RunState { phys, virt, total: (st.total + 1) as u64 }, seq![])
    } else {
        let closing = if st.total != 0 {
            run_summary(st)
        } else {
            seq![WalkLine::Blank]
        };
        (RunState { phys, virt, total: 0 }, closing + seq![WalkLine::Mapping { virt, phys }])
    }
}

/// Walk over the first `n` entries of the table at `table` of the given
/// level: the number of valid entries at and below them, the run state of a
/// leaf table, and the lines reported.
pub open spec fn table_walk(m: spec_fn(u64) -> u64, table: u64, level: nat, vpn: Seq<u64>, n: nat) -> (
    nat,
    RunState,
    Seq<WalkLine>,
)
    decreases level, n,
{
    if n == 0 {
        (0, RunState { phys: 0, virt: 0, total: 0 }, seq![])
    } else {
        let prev = table_walk(m, table, level, vpn, (n - 1) as nat);
        let i = (n - 1) as u64;
        let w = m(entry_addr(table, i));
        if !word_valid(w) {
            prev
        } else if level == 0 {
            let step = leaf_step(prev.1, vpn_base(vpn), i, leaf_phys(w));
            (prev.0 + 1, step.0, prev.2 + step.1)
        } else {
            let sub = table_walk(m, word_next(w), (level - 1) as nat, vpn.update(level as int, i), 512);
            (prev.0 + 1 + sub.0, prev.1, prev.2 + sub.2 + run_summary(sub.1))
        }
    }
}

/// No valid leaf entry below the table at `table` reports a physical page
/// below 4096 (the report compares each page with the one before it).
pub open spec fn leaves_above_first_page(m: spec_fn(u64) -> u64, table: u64, level: nat) -> bool
    decreases level,
{
    forall|i: u64|
        #![trigger entry_addr(table, i)]
        i < 512 && word_valid(m(entry_addr(table, i))) ==> if level == 0 {
            leaf_phys(m(entry_addr(table, i))) >= 4096
        } else {
            leaves_above_first_page(m, word_next(m(entry_addr(table, i))), (level - 1) as nat)
        }
}

/// Most entries counted for one entry of a table of the given level.
pub open spec fn entry_count_bound(level: nat) -> nat
    decreases level,
{
    if level == 0 {
        1
    } else {
        1 + 512 * entry_count_bound((level - 1) as nat)
    }
}

proof fn lemma_table_walk_bound(m: spec_fn(u64) -> u64, table: u64, level: nat, vpn: Seq<u64>, n: nat)
    ensures
        table_walk(m, table, level, vpn, n).0 <= n * entry_count_bound(level),
    decreases level, n,
{
    if n > 0 {
        lemma_table_walk_bound(m, table, level, vpn, (n - 1) as nat);
        let i = (n - 1) as u64;
        let w = m(entry_addr(table, i));
        if word_valid(w) && level > 0 {
            lemma_table_walk_bound(
                m,
                word_next(w),
                (level - 1) as nat,
                vpn.update(level as int, i),
                512,
            );
        }
        let e = entry_count_bound(level);
        assert((n - 1) * e + e == n * e) by (nonlinear_arith);
    }
}

proof fn lemma_vpn_base_bound(v0: u64, v1: u64, v2: u64)
    requires
        v0 < 512,
        v1 < 512,
        v2 < 512,
    ensures
        (v2 << 30u64) | (v1 << 21u64) | (v0 << 12u64) < 0x80_0000_0000,
{
    assert(v0 < 512 && v1 < 512 && v2 < 512 ==> (v2 << 30u64) | (v1 << 21u64) | (v0 << 12u64)
        < 0x80_0000_0000u64) by (bit_vector);
}

/// `virt` translates to the page of `phys`.
pub open spec fn translates(m: spec_fn(u64) -> u64, root: u64, virt: u64, phys: u64) -> bool {
    resolve_walk(m, root, virt, 2) == Some(phys & 0xff_ffff_ffff_f000)
}

/// Every mapping that the lines list is a translation of the table at
/// `root`.
pub open spec fn lines_translate(m: spec_fn(u64) -> u64, root: u64, lines: Seq<WalkLine>) -> bool {
    forall|k: int|
        0 <= k < lines.len() ==> match #[trigger] lines[k] {
            WalkLine::Mapping { virt, phys } => translates(m, root, virt, phys),
            _ => true,
        }
}

/// The table of the given level that a walk along the indices `vpn` from
/// the root table reaches.
pub open spec fn table_at(m: spec_fn(u64) -> u64, root: u64, vpn: Seq<u64>, level: nat) -> u64 {
    let t1 = word_next(m(entry_addr(root, vpn[2])));
    if level == 2 {
        root
    } else if level == 1 {
        t1
    } else {
        word_next(m(entry_addr(t1, vpn[1])))
    }
}

/// The entries on the walk along `vpn` down to the given level are valid.
pub open spec fn path_valid(m: spec_fn(u64) -> u64, root: u64, vpn: Seq<u64>, level: nat) -> bool {
    &&& level < 2 ==> word_valid(m(entry_addr(root, vpn[2])))
    &&& level < 1 ==> word_valid(m(entry_addr(word_next(m(entry_addr(root, vpn[2]))), vpn[1])))
}

proof fn lemma_lines_translate_concat(
    m: spec_fn(u64) -> u64,
    root: u64,
    a: Seq<WalkLine>,
    b: Seq<WalkLine>,
)
    requires
        lines_translate(m, root, a),
        lines_translate(m, root, b),
    ensures
        lines_translate(m, root, a + b),
{
    assert forall|k: int| 0 <= k < (a + b).len() implies match #[trigger] (a + b)[k] {
        WalkLine::Mapping { virt, phys } => translates(m, root, virt, phys),
        _ => true,
    } by {
        if k < a.len() {
            assert((a + b)[k] == a[k]);
        } else {
            assert((a + b)[k] == b[k - a.len()]);
        }
    }
}

proof fn lemma_run_summary_translates(m: spec_fn(u64) -> u64, root: u64, st: RunState)
    requires
        st.total != 0 ==> translates(m, root, st.virt, st.phys),
    ensures
        lines_translate(m, root, run_summary(st)),
{
    if st.total != 0 {
        let l = run_summary(st);
        assert forall|k: int| 0 <= k < l.len() implies match #[trigger] l[k] {
            WalkLine::Mapping { virt, phys } => translates(m, root, virt, phys),
            _ => true,
        } by {
            if k == 1 {
                assert(l[k] == WalkLine::Mapping { virt: st.virt, phys: st.phys });
            }
        }
    }
}

/// The walk that the report makes over the table of the given level reached
/// along `vpn` lists only translations of the table, and its run state
/// names one.
proof fn lemma_table_walk_translates(
    m: spec_fn(u64) -> u64,
    root: u64,
    level: nat,
    vpn: Seq<u64>,
    n: nat,
)
    requires
        level <= 2,
        vpn.len() == 3,
        vpn[0] == 0,
        vpn[1] < 512,
        vpn[2] < 512,
        n <= 512,
        path_valid(m, root, vpn, level),
    ensures
        lines_translate(m, root, table_walk(m, table_at(m, root, vpn, level), level, vpn, n).2),
        table_walk(m, table_at(m, root, vpn, level), level, vpn, n).1.total != 0 ==> translates(
            m,
            root,
            table_walk(m, table_at(m, root, vpn, level), level, vpn, n).1.virt,
            table_walk(m, table_at(m, root, vpn, level), level, vpn, n).1.phys,
        ),
    decreases level, n,
{
    let table = table_at(m, root, vpn, level);
    if n == 0 {
        assert(lines_translate(m, root, Seq::<WalkLine>::empty()));
    } else {
        lemma_table_walk_translates(m, root, level, vpn, (n - 1) as nat);
        let prev = table_walk(m, table, level, vpn, (n - 1) as nat);
        let i = (n - 1) as u64;
        let w = m(entry_addr(table, i));
        if word_valid(w) {
            if level == 0 {
                let v1 = vpn[1];
                let v2 = vpn[2];
                let base = vpn_base(vpn);
                let virt = (base + i * 4096) as u64;
                let phys = leaf_phys(w);
                let nw = word_next(w);
                assert(v1 < 512 && v2 < 512 && i < 512 && base == (v2 << 30u64) | (v1 << 21u64) | (0u64
                    << 12u64) ==> (base + i * 4096) as u64 == (v2 << 30u64) | (v1 << 21u64) | (i
                    << 12u64) && nw | (((base + i * 4096) as u64) & 0xfff) == nw) by (bit_vector);
                lemma_vpn_split_join(i, v1, v2);
                lemma_leaf_phys(w);
                let t1 = word_next(m(entry_addr(root, v2)));
                assert(resolve_walk(m, root, virt, 2) == resolve_walk(m, t1, virt, 1));
                assert(resolve_walk(m, t1, virt, 1) == resolve_walk(m, table, virt, 0));
                assert(translates(m, root, virt, phys));
                let step = leaf_step(prev.1, base, i, phys);
                if phys - 4096 != prev.1.phys {
                    let closing = if prev.1.total != 0 {
                        run_summary(prev.1)
                    } else {
                        seq![WalkLine::Blank]
                    };
                    lemma_run_summary_translates(m, root, prev.1);
                    let last = seq![WalkLine::Mapping { virt, phys }];
                    assert(lines_translate(m, root, last)) by {
                        assert forall|k: int| 0 <= k < last.len() implies match #[trigger] last[k] {
                            WalkLine::Mapping { virt, phys } => translates(m, root, virt, phys),
                            _ => true,
                        } by {
                            assert(last[k] == WalkLine::Mapping { virt, phys });
                        }
                    }
                    assert(lines_translate(m, root, seq![WalkLine::Blank])) by {
                        let b = seq![WalkLine::Blank];
                        assert forall|k: int| 0 <= k < b.len() implies match #[trigger] b[k] {
                            WalkLine::Mapping { virt, phys } => translates(m, root, virt, phys),
                            _ => true,
                        } by {
                            assert(b[k] == WalkLine::Blank);
                        }
                    }
                    lemma_lines_translate_concat(m, root, closing, last);
                    assert(step.1 == closing + last);
                    lemma_lines_translate_concat(m, root, prev.2, step.1);
                } else {
                    assert(step.1 == Seq::<WalkLine>::empty());
                    assert(prev.2 + step.1 == prev.2);
                }
            } else {
                let vpn2 = vpn.update(level as int, i);
                assert(table_at(m, root, vpn2, (level - 1) as nat) == word_next(w));
                lemma_table_walk_translates(m, root, (level - 1) as nat, vpn2, 512);
                let sub = table_walk(m, word_next(w), (level - 1) as nat, vpn2, 512);
                lemma_run_summary_translates(m, root, sub.1);
                lemma_lines_translate_concat(m, root, prev.2, sub.2);
                lemma_lines_translate_concat(m, root, prev.2 + sub.2, run_summary(sub.1));
            }
        }
    }
}

/// Every mapping that the report on the page table at `root` lists is a
/// translation of the table: its virtual address resolves to the page of its
/// physical address.
pub proof fn lemma_report_lines_translate(m: spec_fn(u64) -> u64, root: u64)
    ensures
        lines_translate(
            m,
            root,
            table_walk(m, root, 2, seq![0u64, 0u64, 0u64], 512).2 + run_summary(
                table_walk(m, root, 2, seq![0u64, 0u64, 0u64], 512).1,
            ),
        ),
{
    let vpn = seq![0u64, 0u64, 0u64];
    assert(table_at(m, root, vpn, 2) == root);
    lemma_table_walk_translates(m, root, 2, vpn, 512);
    let t = table_walk(m, root, 2, vpn, 512);
    lemma_run_summary_translates(m, root, t.1);
    lemma_lines_translate_concat(m, root, t.2, run_summary(t.1));
}

/// What the report on the page allocations holds.
pub enum PageAllocationReport {
    NotInitialized,
    Report {
        /// First and last page handed out.
        first: u64,
        last: u64,
        /// Lines on the mappings of the table.
        lines: Vec<WalkLine>,
        /// Number of valid entries in the table.
        total_entries: usize,
        /// Bytes that as many pages hold.
        total_bytes: u64,
    },
}

impl PageTable {
    /// Walks the table `next_pt` of the given level, appending the report on
    /// its mappings to `lines`, and returns the number of valid entries at and
    /// below it.
    fn walk_page_table(
        &self,
        mem: &PhysMemory,
        next_pt: PageTable,
        level: usize,
        vpn: [u64; 3],
        lines: &mut Vec<WalkLine>,
    ) -> (r: usize)
        requires
            level <= 2,
            table_fits(next_pt.page@),
            vpn[0] < 512 && vpn[1] < 512 && vpn[2] < 512,
            leaves_above_first_page(mem@, next_pt.page@, level as nat),
        ensures
            r == table_walk(mem@, next_pt.page@, level as nat, vpn@, 512).0,
            final(lines)@ == old(lines)@ + table_walk(mem@, next_pt.page@, level as nat, vpn@, 512).2
                + run_summary(table_walk(mem@, next_pt.page@, level as nat, vpn@, 512).1),
        decreases level,
    {
        let ghost m = mem@;
        let ghost table = next_pt.page@;
        let ghost lines0 = lines@;
        let mut physical_addr: u64 = 0;
        let mut virtual_addr: u64 = 0;
        let mut total_pages: u64 = 0;
        let mut total_valid_entries: usize = 0;
        let mut i: u64 = 0;
        proof {
            lemma_vpn_base_bound(vpn[0], vpn[1], vpn[2]);
        }
        while i < 512
            invariant
                i <= 512,
                level <= 2,
                m == mem@,
                table == next_pt.page@,
                table_fits(table),
                vpn[0] < 512 && vpn[1] < 512 && vpn[2] < 512,
                vpn_base(vpn@) < 0x80_0000_0000,
                leaves_above_first_page(m, table, level as nat),
                total_valid_entries == table_walk(m, table, level as nat, vpn@, i as nat).0,
                (RunState { phys: physical_addr, virt: virtual_addr, total: total_pages })
                    == table_walk(m, table, level as nat, vpn@, i as nat).1,
                total_pages <= i,
                lines@ == lines0 + table_walk(m, table, level as nat, vpn@, i as nat).2,
            decreases 512 - i,
        {
            proof {
                lemma_table_walk_bound(m, table, level as nat, vpn@, (i + 1) as nat);
                assert(entry_count_bound(0) == 1);
                assert(entry_count_bound(1) == 513);
                assert(entry_count_bound(2) == 262657);
                assert((i + 1) * entry_count_bound(level as nat) <= 512 * 262657) by (nonlinear_arith)
                    requires
                        i + 1 <= 512,
                        entry_count_bound(level as nat) <= 262657,
                ;
            }
            let entry = next_pt.get_entry(mem, i);
            let ghost w = m(entry_addr(table, i));
            proof {
                lemma_flags_cast(w);
                lemma_word_next_bound(w);
            }
            if entry.is_valid() {
                assert(word_valid(w));
                if level == 0 {
                    let new_physical_addr = entry.to_usize() << 2 & !0x3ff;
                    assert(new_physical_addr == leaf_phys(w));
                    assert(new_physical_addr >= 4096);
                    let base = VirtualAddress::new_from_vpn(vpn).to_usize();
                    assert(base == vpn_base(vpn@));
                    if new_physical_addr - 4096 == physical_addr {
                        virtual_addr = base + i * 4096;
                        physical_addr = new_physical_addr;
                        total_pages = total_pages + 1;
                    } else {
                        if total_pages != 0 {
                            lines.push(WalkLine::Ellipsis);
                            lines.push(WalkLine::Mapping { virt: virtual_addr, phys: physical_addr });
                            lines.push(WalkLine::RunLength(total_pages));
                            lines.push(WalkLine::Blank);
                        } else {
                            lines.push(WalkLine::Blank);
                        }
                        physical_addr = new_physical_addr;
                        total_pages = total_pages + 1;
                        virtual_addr = base + i * 4096;
                        lines.push(WalkLine::Mapping { virt: virtual_addr, phys: new_physical_addr });
                        total_pages = 0;
                    }
                    total_valid_entries = total_valid_entries + 1;
                } else {
                    let mut vpn2 = vpn;
                    vpn2[level] = i;
                    assert(vpn2@ == vpn@.update(level as int, i));
                    let next_page = entry.next_page();
                    let new_pt = PageTable::from_page(next_page);
                    let sub = self.walk_page_table(mem, new_pt, level - 1, vpn2, lines);
                    total_valid_entries = total_valid_entries + 1 + sub;
                }
            }
            i = i + 1;
            assert(lines@ == lines0 + table_walk(m, table, level as nat, vpn@, i as nat).2);
        }
        if total_pages != 0 {
            lines.push(WalkLine::Ellipsis);
            lines.push(WalkLine::Mapping { virt: virtual_addr, phys: physical_addr });
            lines.push(WalkLine::RunLength(total_pages));
            lines.push(WalkLine::Blank);
        }
        total_valid_entries
    }
}


impl PageTable {
    /// The report on the pages handed out and the mappings of this root
    /// table; only an initialized allocator is reported on.
    pub fn page_allocation_report(&self, mem: &PhysMemory, allocator: &PageAllocator) -> (r:
        PageAllocationReport)
        requires
            table_fits(self.page@),
            allocator@.initialized ==> allocator@.last_index >= 1 && allocator@.base_addr + 4096 * (
            allocator@.last_index - 1) <= u64::MAX,
            allocator@.initialized ==> leaves_above_first_page(mem@, self.page@, 2),
        ensures
            !allocator@.initialized ==> r is NotInitialized,
            allocator@.initialized ==> match r {
                PageAllocationReport::Report { first, last, lines, total_entries, total_bytes } => {
                    let walk = table_walk(mem@, self.page@, 2, seq![0u64, 0u64, 0u64], 512);
                    &&& first == allocator@.base_addr
                    &&& last == allocator@.base_addr + 4096 * (allocator@.last_index - 1)
                    &&& lines@ == walk.2 + run_summary(walk.1)
                    &&& total_entries == walk.0
                    &&& total_bytes == total_entries * 4096
                },
                PageAllocationReport::NotInitialized => false,
            },
    {
        if allocator.initialized {
            let pt = PageTable::from_page(self.page);
            let first = allocator.base_addr;
            let last = allocator.base_addr + 4096 * (allocator.last_index - 1);
            let vpn: [u64; 3] = [0, 0, 0];
            assert(vpn@ == seq![0u64, 0u64, 0u64]);
            let mut lines: Vec<WalkLine> = Vec::new();
            let total_entries = self.walk_page_table(mem, pt, 2, vpn, &mut lines);
            assert(lines@ == Seq::<WalkLine>::empty() + table_walk(mem@, self.page@, 2, vpn@, 512).2
                + run_summary(table_walk(mem@, self.page@, 2, vpn@, 512).1));
            assert(Seq::<WalkLine>::empty() + table_walk(mem@, self.page@, 2, vpn@, 512).2
                =~= table_walk(mem@, self.page@, 2, vpn@, 512).2);
            proof {
                lemma_table_walk_bound(mem@, self.page@, 2, vpn@, 512);
                assert(entry_count_bound(2) == 262657) by {
                    assert(entry_count_bound(0) == 1);
                    assert(entry_count_bound(1) == 513);
                }
            }
            let total_bytes = (total_entries as u64) * 4096;
            PageAllocationReport::Report { first, last, lines, total_entries, total_bytes }
        } else {
            PageAllocationReport::NotInitialized
        }
    }
}


impl PageTable {
    /// Whether no valid leaf entry below this root table reports a physical
    /// page below 4096, as the report on the page allocations needs.
    pub fn leaves_above_first_page(&self, mem: &PhysMemory) -> (r: bool)
        requires
            table_fits(self.page@),
        ensures
            r == leaves_above_first_page(mem@, self.page@, 2),
    {
        check_leaves(mem, self, 2)
    }
}

fn check_leaves(mem: &PhysMemory, pt: &PageTable, level: usize) -> (r: bool)
    requires
        level <= 2,
        table_fits(pt.page@),
    ensures
        r == leaves_above_first_page(mem@, pt.page@, level as nat),
    decreases level,
{
    let ghost m = mem@;
    let ghost table = pt.page@;
    let mut i: u64 = 0;
    while i < 512
        invariant
            i <= 512,
            level <= 2,
            m == mem@,
            table == pt.page@,
            table_fits(table),
            forall|j: u64|
                #![trigger entry_addr(table, j)]
                j < i && word_valid(m(entry_addr(table, j))) ==> if level == 0 {
                    leaf_phys(m(entry_addr(table, j))) >= 4096
                } else {
                    leaves_above_first_page(m, word_next(m(entry_addr(table, j))), (level - 1) as nat)
                },
        decreases 512 - i,
    {
        let entry = pt.get_entry(mem, i);
        let ghost w = m(entry_addr(table, i));
        proof {
            lemma_flags_cast(w);
            lemma_word_next_bound(w);
        }
        if entry.is_valid() {
            if level == 0 {
                let phys = entry.to_usize() << 2 & !0x3ff;
                if phys < 4096 {
                    return false;
                }
            } else {
                let next = PageTable::from_page(entry.next_page());
                if !check_leaves(mem, &next, level - 1) {
                    return false;
                }
            }
        }
        i = i + 1;
    }
    true
}

} // verus!
