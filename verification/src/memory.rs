//! A model of physical memory for the page-table code: one machine word per
//! address. An address that was never written reads as zero.
use vstd::prelude::*;
use vstd::hash_map::HashMapWithView;

verus! {

broadcast use vstd::std_specs::hash::group_hash_axioms;

/// Memory with the word at `addr` replaced by `value`.
pub open spec fn mem_write(m: spec_fn(u64) -> u64, addr: u64, value: u64) -> spec_fn(u64) -> u64 {
    |a: u64| if a == addr { value } else { m(a) }
}

/// `addr` is the address of one of the 512 words of the page at `page`.
pub open spec fn in_page(page: u64, addr: u64) -> bool {
    page <= addr < page + 4096 && (addr - page) % 8 == 0
}

/// Memory with the 512 words of the page at `page` set to zero.
pub open spec fn mem_clear_page(m: spec_fn(u64) -> u64, page: u64) -> spec_fn(u64) -> u64 {
    |a: u64| if in_page(page, a) { 0 } else { m(a) }
}

/// Memory with `n` consecutive pages, the first at `first`, set to zero.
pub open spec fn mem_clear_pages(m: spec_fn(u64) -> u64, first: u64, n: nat) -> spec_fn(u64) -> u64
    decreases n,
{
    if n == 0 {
        m
    } else {
        mem_clear_page(mem_clear_pages(m, first, (n - 1) as nat), (first + 4096 * (n - 1)) as u64)
    }
}

pub struct PhysMemory {
    words: HashMapWithView<u64, u64>,
}

impl PhysMemory {
    /// The word stored at each address.
    pub closed spec fn view(&self) -> spec_fn(u64) -> u64 {
        |a: u64| if self.words@.contains_key(a) { self.words@[a] } else { 0 }
    }

    /// Memory in which every word is zero.
    pub fn new() -> (r: Self)
        ensures
            forall|a: u64| #[trigger] (r@)(a) == 0,
    {
        PhysMemory { words: HashMapWithView::new() }
    }

    pub fn read(&self, addr: u64) -> (r: u64)
        ensures
            r == (self@)(addr),
    {
        match self.words.get(&addr) {
            Some(v) => *v,
            None => 0,
        }
    }

    pub fn write(&mut self, addr: u64, value: u64)
        ensures
            final(self)@ == mem_write(old(self)@, addr, value),
    {
        self.words.insert(addr, value);
        assert(self@ =~= mem_write(old(self)@, addr, value));
    }

    /// Sets the 512 words of the page at `page` to zero.
    pub fn clear_page(&mut self, page: u64)
        requires
            page + 4096 <= u64::MAX,
        ensures
            final(self)@ == mem_clear_page(old(self)@, page),
    {
        let ghost m0 = self@;
        let mut i: u64 = 0;
        while i < 512
            invariant
                i <= 512,
                page + 4096 <= u64::MAX,
                forall|a: u64|
                    #[trigger] (self@)(a) == if page <= a < page + 8 * i && (a - page) % 8 == 0 {
                        0
                    } else {
                        m0(a)
                    },
            decreases 512 - i,
        {
            self.write(page + 8 * i, 0);
            i = i + 1;
        }
        assert(self@ =~= mem_clear_page(m0, page));
    }
}

} // verus!
