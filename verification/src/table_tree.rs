//! Well-formed page-table trees: every table hangs from exactly one entry,
//! and all tables are pages that the allocator handed out. Mapping keeps a
//! tree well formed and keeps every translation that it does not replace;
//! this is what makes the page table that the guest builds map each of its
//! pages to itself.
use vstd::prelude::*;
use crate::guest;
use crate::memory::{in_page, mem_clear_page, mem_write};
use crate::paging::{
    AllocState, branch_word, entry_addr, lemma_branch_word, lemma_map_then_resolve,
    leaf_of, leaf_word, lemma_leaf_word_perm, map_pages, map_separated, map_walk, resolve_walk, vpn_index, word_next, word_valid,
};

verus! {

/// `p` is a page that the allocator handed out between `lo` and `hi`.
pub open spec fn pool_page(p: u64, lo: u64, hi: u64) -> bool {
    &&& p % 4096 == 0
    &&& lo <= p
    &&& p + 4096 <= hi
}

/// Root entry `i` is valid.
pub open spec fn has_l1(m: spec_fn(u64) -> u64, root: u64, i: u64) -> bool {
    i < 512 && word_valid(m(entry_addr(root, i)))
}

/// The table that root entry `i` points to.
pub open spec fn l1_of(m: spec_fn(u64) -> u64, root: u64, i: u64) -> u64 {
    word_next(m(entry_addr(root, i)))
}

/// Entry `j` of the table under root entry `i` is valid.
pub open spec fn has_l0(m: spec_fn(u64) -> u64, root: u64, i: u64, j: u64) -> bool {
    has_l1(m, root, i) && j < 512 && word_valid(m(entry_addr(l1_of(m, root, i), j)))
}

/// The leaf table that entry `j` of the table under root entry `i` points to.
pub open spec fn l0_of(m: spec_fn(u64) -> u64, root: u64, i: u64, j: u64) -> u64 {
    word_next(m(entry_addr(l1_of(m, root, i), j)))
}

/// The tree of tables from `root` is well formed: all its tables are
/// distinct pages handed out between `lo` and `hi`.
pub open spec fn tree_wf(m: spec_fn(u64) -> u64, root: u64, lo: u64, hi: u64) -> bool {
    &&& pool_page(root, lo, hi)
    &&& forall|i: u64| #[trigger]
        has_l1(m, root, i) ==> pool_page(l1_of(m, root, i), lo, hi) && l1_of(m, root, i) != root
    &&& forall|i: u64, i2: u64|
        #[trigger] has_l1(m, root, i) && #[trigger] has_l1(m, root, i2) && i != i2 ==> l1_of(m, root, i)
            != l1_of(m, root, i2)
    &&& forall|i: u64, j: u64| #[trigger]
        has_l0(m, root, i, j) ==> pool_page(l0_of(m, root, i, j), lo, hi) && l0_of(m, root, i, j) != root
    &&& forall|i: u64, j: u64, i2: u64|
        #[trigger] has_l0(m, root, i, j) && #[trigger] has_l1(m, root, i2) ==> l0_of(m, root, i, j)
            != l1_of(m, root, i2)
    &&& forall|i: u64, j: u64, i2: u64, j2: u64|
        #[trigger] has_l0(m, root, i, j) && #[trigger] has_l0(m, root, i2, j2) && (i != i2 || j != j2)
            ==> l0_of(m, root, i, j) != l0_of(m, root, i2, j2)
}

proof fn lemma_pages_apart(t: u64, s: u64)
    requires
        t % 4096 == 0,
        s % 4096 == 0,
        t != s,
    ensures
        t + 4096 <= s || s + 4096 <= t,
{
    assert(t + 4096 <= s || s + 4096 <= t) by (nonlinear_arith)
        requires
            t % 4096 == 0,
            s % 4096 == 0,
            t != s,
    {
        let a = t / 4096;
        let b = s / 4096;
        assert(t == 4096 * a);
        assert(s == 4096 * b);
    }
}

/// Entries of distinct pages, or distinct entries of one page, lie at
/// distinct addresses; an entry of one page is no word of another.
proof fn lemma_entries_apart(t: u64, i: u64, s: u64, j: u64)
    requires
        t % 4096 == 0,
        s % 4096 == 0,
        t + 4096 <= u64::MAX,
        s + 4096 <= u64::MAX,
        i < 512,
        j < 512,
    ensures
        (t != s || i != j) ==> entry_addr(t, i) != entry_addr(s, j),
        t != s ==> !in_page(s, entry_addr(t, i)),
        in_page(t, entry_addr(t, i)),
{
    if t != s {
        lemma_pages_apart(t, s);
    }
}


/// Every table of the tree is a page of the pool below `hi`, so nothing at
/// or above `hi` belongs to the tree.
proof fn lemma_wf_bounds(m: spec_fn(u64) -> u64, root: u64, lo: u64, hi: u64, i: u64, j: u64)
    requires
        tree_wf(m, root, lo, hi),
    ensures
        has_l1(m, root, i) ==> pool_page(l1_of(m, root, i), lo, hi) && l1_of(m, root, i) != root,
        has_l0(m, root, i, j) ==> pool_page(l0_of(m, root, i, j), lo, hi) && l0_of(m, root, i, j)
            != root && l0_of(m, root, i, j) != l1_of(m, root, i),
{
    if has_l0(m, root, i, j) {
        assert(has_l1(m, root, i));
    }
}

/// The tree under `root` reads the same in `m1` and `m2`.
pub open spec fn same_tree(m1: spec_fn(u64) -> u64, m2: spec_fn(u64) -> u64, root: u64) -> bool {
    &&& forall|i: u64| #[trigger]
        has_l1(m2, root, i) == has_l1(m1, root, i) && (has_l1(m1, root, i) ==> l1_of(m2, root, i)
            == l1_of(m1, root, i))
    &&& forall|i: u64, j: u64| #[trigger]
        has_l0(m2, root, i, j) == has_l0(m1, root, i, j) && (has_l0(m1, root, i, j) ==> l0_of(
            m2,
            root,
            i,
            j,
        ) == l0_of(m1, root, i, j))
}

/// A tree that reads the same in another memory is well formed there too,
/// also with a larger pool.
proof fn lemma_same_tree_wf(m1: spec_fn(u64) -> u64, m2: spec_fn(u64) -> u64, root: u64, lo: u64, hi: u64, hi2: u64)
    requires
        tree_wf(m1, root, lo, hi),
        same_tree(m1, m2, root),
        hi <= hi2,
    ensures
        tree_wf(m2, root, lo, hi2),
{
    assert forall|i: u64| #[trigger] has_l1(m2, root, i) implies pool_page(l1_of(m2, root, i), lo, hi2)
        && l1_of(m2, root, i) != root by {
        assert(has_l1(m1, root, i));
    }
    assert forall|i: u64, i2: u64|
        #[trigger] has_l1(m2, root, i) && #[trigger] has_l1(m2, root, i2) && i != i2 implies l1_of(m2, root, i)
            != l1_of(m2, root, i2) by {
        assert(has_l1(m1, root, i) && has_l1(m1, root, i2));
    }
    assert forall|i: u64, j: u64| #[trigger]
        has_l0(m2, root, i, j) implies pool_page(l0_of(m2, root, i, j), lo, hi2) && l0_of(m2, root, i, j)
            != root by {
        assert(has_l0(m1, root, i, j));
    }
    assert forall|i: u64, j: u64, i2: u64|
        #[trigger] has_l0(m2, root, i, j) && #[trigger] has_l1(m2, root, i2) implies l0_of(m2, root, i, j)
            != l1_of(m2, root, i2) by {
        assert(has_l0(m1, root, i, j) && has_l1(m1, root, i2));
    }
    assert forall|i: u64, j: u64, i2: u64, j2: u64|
        #[trigger] has_l0(m2, root, i, j) && #[trigger] has_l0(m2, root, i2, j2) && (i != i2 || j != j2)
            implies l0_of(m2, root, i, j) != l0_of(m2, root, i2, j2) by {
        assert(has_l0(m1, root, i, j) && has_l0(m1, root, i2, j2));
    }
}


/// The three indices of `va` and `va2` are the same.
pub open spec fn same_indices(va: u64, va2: u64) -> bool {
    &&& vpn_index(va, 0) == vpn_index(va2, 0)
    &&& vpn_index(va, 1) == vpn_index(va2, 1)
    &&& vpn_index(va, 2) == vpn_index(va2, 2)
}

proof fn lemma_indices_small(va: u64)
    requires
        va < 0x80_0000_0000,
    ensures
        vpn_index(va, 0) < 512,
        vpn_index(va, 1) < 512,
        vpn_index(va, 2) < 512,
{
    crate::paging::lemma_vpn_bound(va, 0);
    crate::paging::lemma_vpn_bound(va, 1);
    assert(va < 0x80_0000_0000 ==> (va >> 30u64) & 0x7ff < 512) by (bit_vector);
}

/// A walk that resolves goes through valid entries of the tree.
proof fn lemma_resolved_walk(m: spec_fn(u64) -> u64, root: u64, va: u64)
    requires
        va < 0x80_0000_0000,
        resolve_walk(m, root, va, 2) is Some,
    ensures
        has_l0(m, root, vpn_index(va, 2), vpn_index(va, 1)),
        word_valid(m(entry_addr(l0_of(m, root, vpn_index(va, 2), vpn_index(va, 1)), vpn_index(va, 0)))),
        resolve_walk(m, root, va, 2) == Some(
            word_next(m(entry_addr(l0_of(m, root, vpn_index(va, 2), vpn_index(va, 1)), vpn_index(va, 0))))
                | (va & 0xfff),
        ),
{
    lemma_indices_small(va);
    let t1 = l1_of(m, root, vpn_index(va, 2));
    let t0 = l0_of(m, root, vpn_index(va, 2), vpn_index(va, 1));
    assert(resolve_walk(m, root, va, 2) == resolve_walk(m, t1, va, 1));
    assert(resolve_walk(m, t1, va, 1) == resolve_walk(m, t0, va, 0));
}

/// A walk whose three entries read the same in two memories resolves the
/// same in both.
proof fn lemma_walk_same_reads(m: spec_fn(u64) -> u64, m2: spec_fn(u64) -> u64, root: u64, va: u64)
    requires
        va < 0x80_0000_0000,
        resolve_walk(m, root, va, 2) is Some,
        m2(entry_addr(root, vpn_index(va, 2))) == m(entry_addr(root, vpn_index(va, 2))),
        m2(entry_addr(l1_of(m, root, vpn_index(va, 2)), vpn_index(va, 1))) == m(
            entry_addr(l1_of(m, root, vpn_index(va, 2)), vpn_index(va, 1)),
        ),
        m2(entry_addr(l0_of(m, root, vpn_index(va, 2), vpn_index(va, 1)), vpn_index(va, 0))) == m(
            entry_addr(l0_of(m, root, vpn_index(va, 2), vpn_index(va, 1)), vpn_index(va, 0)),
        ),
    ensures
        resolve_walk(m2, root, va, 2) == resolve_walk(m, root, va, 2),
        leaf_of(m2, root, va) == leaf_of(m, root, va),
{
    lemma_resolved_walk(m, root, va);
    let t1 = l1_of(m, root, vpn_index(va, 2));
    let t0 = l0_of(m, root, vpn_index(va, 2), vpn_index(va, 1));
    assert(resolve_walk(m2, root, va, 2) == resolve_walk(m2, t1, va, 1));
    assert(resolve_walk(m2, t1, va, 1) == resolve_walk(m2, t0, va, 0));
}


/// What mapping `va` into a well-formed tree keeps: the tree stays well
/// formed (with the pool grown by the tables it allocates), the words it
/// writes do not overlap, and every other address that resolved still
/// resolves the same.
pub open spec fn map_step_ok(
    m: spec_fn(u64) -> u64,
    al: AllocState,
    root: u64,
    va: u64,
    dest: u64,
    perm: u16,
) -> bool {
    let s = map_walk(m, al, root, va, dest, perm, 2);
    &&& tree_wf(s.0, root, al.base_addr, s.1.next_page())
    &&& map_separated(m, al, root, va)
    &&& forall|va2: u64|
        va2 < 0x80_0000_0000 && !same_indices(va, va2) && resolve_walk(m, root, va2, 2) is Some
            ==> #[trigger] resolve_walk(s.0, root, va2, 2) == resolve_walk(m, root, va2, 2)
            && leaf_of(s.0, root, va2) == leaf_of(m, root, va2)
}

/// Mapping through tables that exist writes the leaf entry only.
proof fn lemma_map_step_existing(
    m: spec_fn(u64) -> u64,
    al: AllocState,
    root: u64,
    va: u64,
    dest: u64,
    perm: u16,
)
    requires
        tree_wf(m, root, al.base_addr, al.next_page()),
        va < 0x80_0000_0000,
        has_l0(m, root, vpn_index(va, 2), vpn_index(va, 1)),
    ensures
        map_walk(m, al, root, va, dest, perm, 2).1 == al,
        map_step_ok(m, al, root, va, dest, perm),
{
    let lo = al.base_addr;
    let hi = al.next_page();
    let v2 = vpn_index(va, 2);
    let v1 = vpn_index(va, 1);
    let v0 = vpn_index(va, 0);
    lemma_indices_small(va);
    let t1 = l1_of(m, root, v2);
    let t0 = l0_of(m, root, v2, v1);
    let a2 = entry_addr(root, v2);
    let a1 = entry_addr(t1, v1);
    let a0 = entry_addr(t0, v0);
    let m3 = mem_write(m, a0, leaf_word(dest, perm));
    lemma_wf_bounds(m, root, lo, hi, v2, v1);
    assert(map_walk(m, al, root, va, dest, perm, 2) == map_walk(m, al, t1, va, dest, perm, 1));
    assert(map_walk(m, al, t1, va, dest, perm, 1) == map_walk(m, al, t0, va, dest, perm, 0));
    assert(map_walk(m, al, root, va, dest, perm, 2) == (m3, al));

    // the tree reads the same
    assert forall|i: u64| #[trigger]
        has_l1(m3, root, i) == has_l1(m, root, i) && (has_l1(m, root, i) ==> l1_of(m3, root, i)
            == l1_of(m, root, i)) by {
        if i < 512 {
            lemma_entries_apart(root, i, t0, v0);
        }
    }
    assert forall|i: u64, j: u64| #[trigger]
        has_l0(m3, root, i, j) == has_l0(m, root, i, j) && (has_l0(m, root, i, j) ==> l0_of(m3, root, i, j)
            == l0_of(m, root, i, j)) by {
        if i < 512 {
            lemma_entries_apart(root, i, t0, v0);
        }
        if has_l1(m, root, i) && j < 512 {
            lemma_wf_bounds(m, root, lo, hi, i, j);
            assert(t0 != l1_of(m, root, i));
            lemma_entries_apart(l1_of(m, root, i), j, t0, v0);
        }
    }
    lemma_same_tree_wf(m, m3, root, lo, hi, hi);

    // the writes do not overlap
    lemma_entries_apart(root, v2, t1, v1);
    lemma_entries_apart(root, v2, t0, v0);
    lemma_entries_apart(t1, v1, t0, v0);
    assert(map_separated(m, al, root, va));

    // other walks resolve the same
    assert forall|va2: u64|
        va2 < 0x80_0000_0000 && !same_indices(va, va2) && resolve_walk(m, root, va2, 2) is Some
            implies #[trigger] resolve_walk(m3, root, va2, 2) == resolve_walk(m, root, va2, 2)
            && leaf_of(m3, root, va2) == leaf_of(m, root, va2) by {
        let k2 = vpn_index(va2, 2);
        let k1 = vpn_index(va2, 1);
        let k0 = vpn_index(va2, 0);
        lemma_indices_small(va2);
        lemma_resolved_walk(m, root, va2);
        lemma_wf_bounds(m, root, lo, hi, k2, k1);
        let u1 = l1_of(m, root, k2);
        let u0 = l0_of(m, root, k2, k1);
        lemma_entries_apart(root, k2, t0, v0);
        assert(has_l0(m, root, v2, v1) && has_l1(m, root, k2));
        lemma_entries_apart(u1, k1, t0, v0);
        assert(has_l0(m, root, k2, k1) && has_l0(m, root, v2, v1));
        lemma_entries_apart(u0, k0, t0, v0);
        lemma_walk_same_reads(m, m3, root, va2);
    }
}


/// Mapping below a middle table whose entry is invalid allocates the leaf
/// table.
proof fn lemma_map_step_new_leaf_table(
    m: spec_fn(u64) -> u64,
    al: AllocState,
    root: u64,
    va: u64,
    dest: u64,
    perm: u16,
)
    requires
        tree_wf(m, root, al.base_addr, al.next_page()),
        al.next_page() % 4096 == 0,
        al.base_addr + 4096 * al.last_index < 0x100_0000_0000_0000,
        va < 0x80_0000_0000,
        has_l1(m, root, vpn_index(va, 2)),
        !has_l0(m, root, vpn_index(va, 2), vpn_index(va, 1)),
    ensures
        map_walk(m, al, root, va, dest, perm, 2).1 == al.advanced(1),
        map_step_ok(m, al, root, va, dest, perm),
{
    let lo = al.base_addr;
    let hi = al.next_page();
    let v2 = vpn_index(va, 2);
    let v1 = vpn_index(va, 1);
    let v0 = vpn_index(va, 0);
    lemma_indices_small(va);
    lemma_wf_bounds(m, root, lo, hi, v2, v1);
    let t1 = l1_of(m, root, v2);
    let p0 = hi;
    let a2 = entry_addr(root, v2);
    let a1 = entry_addr(t1, v1);
    let a0 = entry_addr(p0, v0);
    let m2 = mem_write(mem_clear_page(m, p0), a1, branch_word(p0));
    let m3 = mem_write(m2, a0, leaf_word(dest, perm));
    assert(map_walk(m, al, root, va, dest, perm, 2) == map_walk(m, al, t1, va, dest, perm, 1));
    assert(map_walk(m, al, t1, va, dest, perm, 1) == map_walk(m2, al.advanced(1), p0, va, dest, perm, 0));
    assert(map_walk(m, al, root, va, dest, perm, 2) == (m3, al.advanced(1)));
    assert(al.advanced(1).next_page() == hi + 4096);
    lemma_branch_word(p0);
    lemma_entries_apart(root, v2, t1, v1);
    lemma_entries_apart(root, v2, p0, v0);
    lemma_entries_apart(t1, v1, p0, v0);
    assert(m3(a1) == branch_word(p0));

    // the root entries read the same
    assert forall|i: u64| #[trigger]
        has_l1(m3, root, i) == has_l1(m, root, i) && (has_l1(m, root, i) ==> l1_of(m3, root, i)
            == l1_of(m, root, i)) by {
        if i < 512 {
            lemma_entries_apart(root, i, p0, v0);
            lemma_entries_apart(root, i, t1, v1);
        }
    }
    // the middle entries read the same but the one that now points to `p0`
    assert forall|i: u64, j: u64| #[trigger]
        has_l0(m3, root, i, j) == (has_l0(m, root, i, j) || (i == v2 && j == v1)) && (has_l0(m3, root, i, j) ==> l0_of(
            m3,
            root,
            i,
            j,
        ) == if i == v2 && j == v1 {
            p0
        } else {
            l0_of(m, root, i, j)
        }) by {
        if has_l1(m, root, i) && j < 512 {
            lemma_wf_bounds(m, root, lo, hi, i, j);
            let t = l1_of(m, root, i);
            lemma_entries_apart(t, j, p0, v0);
            lemma_entries_apart(t, j, t1, v1);
            if i != v2 {
                assert(has_l1(m, root, i) && has_l1(m, root, v2));
            }
        }
    }
    let hi3 = (hi + 4096) as u64;
    assert forall|i: u64| #[trigger] has_l1(m3, root, i) implies pool_page(l1_of(m3, root, i), lo, hi3)
        && l1_of(m3, root, i) != root by {
        assert(has_l1(m, root, i));
    }
    assert forall|i: u64, i2: u64|
        #[trigger] has_l1(m3, root, i) && #[trigger] has_l1(m3, root, i2) && i != i2 implies l1_of(m3, root, i)
            != l1_of(m3, root, i2) by {
        assert(has_l1(m, root, i) && has_l1(m, root, i2));
    }
    assert forall|i: u64, j: u64| #[trigger]
        has_l0(m3, root, i, j) implies pool_page(l0_of(m3, root, i, j), lo, hi3) && l0_of(m3, root, i, j)
            != root by {
        if !(i == v2 && j == v1) {
            assert(has_l0(m, root, i, j));
        }
    }
    assert forall|i: u64, j: u64, i2: u64|
        #[trigger] has_l0(m3, root, i, j) && #[trigger] has_l1(m3, root, i2) implies l0_of(m3, root, i, j)
            != l1_of(m3, root, i2) by {
        assert(has_l1(m, root, i2));
        lemma_wf_bounds(m, root, lo, hi, i2, 0);
        if !(i == v2 && j == v1) {
            assert(has_l0(m, root, i, j));
        }
    }
    assert forall|i: u64, j: u64, i2: u64, j2: u64|
        #[trigger] has_l0(m3, root, i, j) && #[trigger] has_l0(m3, root, i2, j2) && (i != i2 || j != j2)
            implies l0_of(m3, root, i, j) != l0_of(m3, root, i2, j2) by {
        if !(i == v2 && j == v1) {
            assert(has_l0(m, root, i, j));
            lemma_wf_bounds(m, root, lo, hi, i, j);
        }
        if !(i2 == v2 && j2 == v1) {
            assert(has_l0(m, root, i2, j2));
            lemma_wf_bounds(m, root, lo, hi, i2, j2);
        }
    }
    assert(tree_wf(m3, root, lo, hi3));

    assert(map_separated(m, al, root, va));

    assert forall|va2: u64|
        va2 < 0x80_0000_0000 && !same_indices(va, va2) && resolve_walk(m, root, va2, 2) is Some
            implies #[trigger] resolve_walk(m3, root, va2, 2) == resolve_walk(m, root, va2, 2)
            && leaf_of(m3, root, va2) == leaf_of(m, root, va2) by {
        let k2 = vpn_index(va2, 2);
        let k1 = vpn_index(va2, 1);
        let k0 = vpn_index(va2, 0);
        lemma_indices_small(va2);
        lemma_resolved_walk(m, root, va2);
        lemma_wf_bounds(m, root, lo, hi, k2, k1);
        let u1 = l1_of(m, root, k2);
        let u0 = l0_of(m, root, k2, k1);
        lemma_entries_apart(root, k2, p0, v0);
        lemma_entries_apart(root, k2, t1, v1);
        lemma_entries_apart(u1, k1, p0, v0);
        lemma_entries_apart(u1, k1, t1, v1);
        if k2 != v2 {
            assert(has_l1(m, root, k2) && has_l1(m, root, v2));
        }
        lemma_entries_apart(u0, k0, p0, v0);
        assert(has_l0(m, root, k2, k1) && has_l1(m, root, v2));
        lemma_entries_apart(u0, k0, t1, v1);
        lemma_walk_same_reads(m, m3, root, va2);
    }
}


/// Mapping below an invalid root entry allocates a middle and a leaf table.
proof fn lemma_map_step_new_tables(
    m: spec_fn(u64) -> u64,
    al: AllocState,
    root: u64,
    va: u64,
    dest: u64,
    perm: u16,
)
    requires
        tree_wf(m, root, al.base_addr, al.next_page()),
        al.next_page() % 4096 == 0,
        al.base_addr + 4096 * (al.last_index + 1) < 0x100_0000_0000_0000,
        va < 0x80_0000_0000,
        !has_l1(m, root, vpn_index(va, 2)),
    ensures
        map_walk(m, al, root, va, dest, perm, 2).1 == al.advanced(1).advanced(1),
        map_step_ok(m, al, root, va, dest, perm),
{
    let lo = al.base_addr;
    let hi = al.next_page();
    let v2 = vpn_index(va, 2);
    let v1 = vpn_index(va, 1);
    let v0 = vpn_index(va, 0);
    lemma_indices_small(va);
    let p1 = hi;
    let p0 = (hi + 4096) as u64;
    let a2 = entry_addr(root, v2);
    let a1 = entry_addr(p1, v1);
    let a0 = entry_addr(p0, v0);
    let m1 = mem_write(mem_clear_page(m, p1), a2, branch_word(p1));
    let m2 = mem_write(mem_clear_page(m1, p0), a1, branch_word(p0));
    let m3 = mem_write(m2, a0, leaf_word(dest, perm));
    assert(al.advanced(1).next_page() == p0);
    assert(al.advanced(1).advanced(1).next_page() == hi + 8192);
    lemma_entries_apart(root, v2, p1, v1);
    lemma_entries_apart(root, v2, p0, v0);
    lemma_entries_apart(p1, v1, p0, v0);
    assert(m1(a1) == 0);
    assert(!word_valid(0)) by (bit_vector);
    assert(map_walk(m, al, root, va, dest, perm, 2) == map_walk(m1, al.advanced(1), p1, va, dest, perm, 1));
    assert(map_walk(m1, al.advanced(1), p1, va, dest, perm, 1) == map_walk(
        m2,
        al.advanced(1).advanced(1),
        p0,
        va,
        dest,
        perm,
        0,
    ));
    assert(map_walk(m, al, root, va, dest, perm, 2) == (m3, al.advanced(1).advanced(1)));
    lemma_branch_word(p1);
    lemma_branch_word(p0);
    assert(m3(a2) == branch_word(p1));
    assert(m3(a1) == branch_word(p0));

    assert forall|i: u64| #[trigger]
        has_l1(m3, root, i) == (has_l1(m, root, i) || i == v2) && (has_l1(m3, root, i) ==> l1_of(m3, root, i)
            == if i == v2 {
            p1
        } else {
            l1_of(m, root, i)
        }) by {
        if i < 512 {
            lemma_entries_apart(root, i, p1, v1);
            lemma_entries_apart(root, i, p0, v0);
            lemma_entries_apart(root, i, root, v2);
        }
    }
    assert forall|i: u64, j: u64| #[trigger]
        has_l0(m3, root, i, j) == (has_l0(m, root, i, j) || (i == v2 && j == v1)) && (has_l0(m3, root, i, j) ==> l0_of(
            m3,
            root,
            i,
            j,
        ) == if i == v2 && j == v1 {
            p0
        } else {
            l0_of(m, root, i, j)
        }) by {
        if i == v2 && j < 512 {
            lemma_entries_apart(p1, j, p1, v1);
            lemma_entries_apart(p1, j, p0, v0);
            lemma_entries_apart(p1, j, root, v2);
            assert(!has_l1(m, root, i));
        }
        if i != v2 && has_l1(m, root, i) && j < 512 {
            lemma_wf_bounds(m, root, lo, hi, i, j);
            let t = l1_of(m, root, i);
            lemma_entries_apart(t, j, p0, v0);
            lemma_entries_apart(t, j, p1, v1);
            lemma_entries_apart(t, j, root, v2);
        }
    }
    let hi3 = (hi + 8192) as u64;
    assert forall|i: u64| #[trigger] has_l1(m3, root, i) implies pool_page(l1_of(m3, root, i), lo, hi3)
        && l1_of(m3, root, i) != root by {
        if i != v2 {
            assert(has_l1(m, root, i));
        }
    }
    assert forall|i: u64, i2: u64|
        #[trigger] has_l1(m3, root, i) && #[trigger] has_l1(m3, root, i2) && i != i2 implies l1_of(m3, root, i)
            != l1_of(m3, root, i2) by {
        if i != v2 {
            assert(has_l1(m, root, i));
            lemma_wf_bounds(m, root, lo, hi, i, 0);
        }
        if i2 != v2 {
            assert(has_l1(m, root, i2));
            lemma_wf_bounds(m, root, lo, hi, i2, 0);
        }
    }
    assert forall|i: u64, j: u64| #[trigger]
        has_l0(m3, root, i, j) implies pool_page(l0_of(m3, root, i, j), lo, hi3) && l0_of(m3, root, i, j)
            != root by {
        if !(i == v2 && j == v1) {
            assert(has_l0(m, root, i, j));
        }
    }
    assert forall|i: u64, j: u64, i2: u64|
        #[trigger] has_l0(m3, root, i, j) && #[trigger] has_l1(m3, root, i2) implies l0_of(m3, root, i, j)
            != l1_of(m3, root, i2) by {
        if i2 != v2 {
            assert(has_l1(m, root, i2));
            lemma_wf_bounds(m, root, lo, hi, i2, 0);
        }
        if !(i == v2 && j == v1) {
            assert(has_l0(m, root, i, j));
            lemma_wf_bounds(m, root, lo, hi, i, j);
        }
    }
    assert forall|i: u64, j: u64, i2: u64, j2: u64|
        #[trigger] has_l0(m3, root, i, j) && #[trigger] has_l0(m3, root, i2, j2) && (i != i2 || j != j2)
            implies l0_of(m3, root, i, j) != l0_of(m3, root, i2, j2) by {
        if !(i == v2 && j == v1) {
            assert(has_l0(m, root, i, j));
            lemma_wf_bounds(m, root, lo, hi, i, j);
        }
        if !(i2 == v2 && j2 == v1) {
            assert(has_l0(m, root, i2, j2));
            lemma_wf_bounds(m, root, lo, hi, i2, j2);
        }
    }
    assert(tree_wf(m3, root, lo, hi3));

    assert(map_separated(m, al, root, va));

    assert forall|va2: u64|
        va2 < 0x80_0000_0000 && !same_indices(va, va2) && resolve_walk(m, root, va2, 2) is Some
            implies #[trigger] resolve_walk(m3, root, va2, 2) == resolve_walk(m, root, va2, 2)
            && leaf_of(m3, root, va2) == leaf_of(m, root, va2) by {
        let k2 = vpn_index(va2, 2);
        let k1 = vpn_index(va2, 1);
        let k0 = vpn_index(va2, 0);
        lemma_indices_small(va2);
        lemma_resolved_walk(m, root, va2);
        lemma_wf_bounds(m, root, lo, hi, k2, k1);
        let u1 = l1_of(m, root, k2);
        let u0 = l0_of(m, root, k2, k1);
        lemma_entries_apart(root, k2, root, v2);
        lemma_entries_apart(root, k2, p1, v1);
        lemma_entries_apart(root, k2, p0, v0);
        lemma_entries_apart(u1, k1, p1, v1);
        lemma_entries_apart(u1, k1, p0, v0);
        lemma_entries_apart(u1, k1, root, v2);
        lemma_entries_apart(u0, k0, p1, v1);
        lemma_entries_apart(u0, k0, p0, v0);
        lemma_entries_apart(u0, k0, root, v2);
        lemma_walk_same_reads(m, m3, root, va2);
    }
}


/// Mapping an address below 2^39 into a well-formed tree keeps the tree
/// well formed and keeps the translations of all other resolving addresses.
pub proof fn lemma_map_step(m: spec_fn(u64) -> u64, al: AllocState, root: u64, va: u64, dest: u64, perm: u16)
    requires
        tree_wf(m, root, al.base_addr, al.next_page()),
        al.wf(),
        al.can_alloc(map_pages(m, al, root, va, 2)),
        al.base_addr % 4096 == 0,
        va < 0x80_0000_0000,
    ensures
        map_step_ok(m, al, root, va, dest, perm),
        map_pages(m, al, root, va, 2) == if !has_l1(m, root, vpn_index(va, 2)) {
            2nat
        } else if !has_l0(m, root, vpn_index(va, 2), vpn_index(va, 1)) {
            1nat
        } else {
            0nat
        },
{
    lemma_indices_small(va);
    let v2 = vpn_index(va, 2);
    let v1 = vpn_index(va, 1);
    let a2 = entry_addr(root, v2);
    if !has_l1(m, root, v2) {
        let p = al.next_page();
        let m1 = mem_write(mem_clear_page(m, p), a2, branch_word(p));
        assert(map_pages(m, al, root, va, 2) == 1 + map_pages(m1, al.advanced(1), p, va, 1));
        crate::paging::lemma_next_page_aligned(al);
        lemma_entries_apart(root, v2, p, v1);
        assert(m1(entry_addr(p, v1)) == 0);
        assert(!word_valid(0)) by (bit_vector);
        let e1 = entry_addr(p, v1);
        let p1 = al.advanced(1).next_page();
        assert(map_pages(
            mem_write(mem_clear_page(m1, p1), e1, branch_word(p1)),
            al.advanced(1).advanced(1),
            p1,
            va,
            0,
        ) == 0);
        assert(map_pages(m1, al.advanced(1), p, va, 1) == 1);
        lemma_map_step_new_tables(m, al, root, va, dest, perm);
    } else if !has_l0(m, root, v2, v1) {
        let t1 = l1_of(m, root, v2);
        let e = entry_addr(t1, v1);
        assert(!word_valid(m(e)));
        let p = al.next_page();
        assert(map_pages(mem_write(mem_clear_page(m, p), e, branch_word(p)), al.advanced(1), p, va, 0)
            == 0);
        assert(map_pages(m, al, root, va, 2) == map_pages(m, al, t1, va, 1));
        assert(map_pages(m, al, t1, va, 1) == 1);
        crate::paging::lemma_next_page_aligned(al);
        lemma_map_step_new_leaf_table(m, al, root, va, dest, perm);
    } else {
        let t1 = l1_of(m, root, v2);
        let e = entry_addr(t1, v1);
        assert(word_valid(m(e)));
        assert(map_pages(m, al, word_next(m(e)), va, 0) == 0);
        assert(map_pages(m, al, root, va, 2) == map_pages(m, al, t1, va, 1));
        assert(map_pages(m, al, t1, va, 1) == 0);
        lemma_map_step_existing(m, al, root, va, dest, perm);
    }
}

/// `va` translates to itself.
pub open spec fn resolves_to_itself(m: spec_fn(u64) -> u64, root: u64, va: u64) -> bool {
    resolve_walk(m, root, va, 2) == Some(va)
}

/// `va` translates to itself through a leaf entry made with the
/// permission bits `perm`.
pub open spec fn maps_to_itself(m: spec_fn(u64) -> u64, root: u64, va: u64, perm: u16) -> bool {
    resolves_to_itself(m, root, va) && leaf_of(m, root, va) == leaf_word(va, perm)
}

proof fn lemma_aligned_address(va: u64, va2: u64)
    requires
        va % 4096 == 0,
        va2 % 4096 == 0,
        va < 0x80_0000_0000,
        va2 < 0x80_0000_0000,
    ensures
        va | (va & 0xfff) == va,
        same_indices(va, va2) ==> va == va2,
{
    assert(va % 4096 == 0 ==> va | (va & 0xfff) == va) by (bit_vector);
    assert(va % 4096 == 0 && va2 % 4096 == 0 && va < 0x80_0000_0000 && va2 < 0x80_0000_0000 && (
    va >> 12u64) & 0x1ff == (va2 >> 12u64) & 0x1ff && (va >> 21u64) & 0x1ff == (va2 >> 21u64) & 0x1ff
        && (va >> 30u64) & 0x7ff == (va2 >> 30u64) & 0x7ff ==> va == va2) by (bit_vector);
}

/// Mapping `n` pages from `first` on to themselves into a well-formed tree
/// keeps the tree well formed, makes each of those pages translate to
/// itself, and keeps every page that translated to itself doing so.
pub proof fn lemma_identity_map_range(
    m: spec_fn(u64) -> u64,
    al: AllocState,
    root: u64,
    first: u64,
    n: nat,
    perm: u16,
)
    requires
        tree_wf(m, root, al.base_addr, al.next_page()),
        crate::paging::table_fits(root),
        al.wf(),
        al.can_alloc(crate::paging::identity_map_pages(m, al, root, first, n, perm)),
        al.base_addr % 4096 == 0,
        first % 4096 == 0,
        first + 4096 * n <= 0x80_0000_0000,
        perm < 1024,
    ensures
        tree_wf(
            crate::paging::identity_map_range(m, al, root, first, n, perm).0,
            root,
            al.base_addr,
            crate::paging::identity_map_range(m, al, root, first, n, perm).1.next_page(),
        ),
        forall|k: nat|
            k < n ==> resolves_to_itself(
                crate::paging::identity_map_range(m, al, root, first, n, perm).0,
                root,
                #[trigger] ((first + 4096 * k) as u64),
            ),
        forall|va: u64|
            va % 4096 == 0 && va < 0x80_0000_0000 && resolves_to_itself(m, root, va)
                ==> #[trigger] resolves_to_itself(
                crate::paging::identity_map_range(m, al, root, first, n, perm).0,
                root,
                va,
            ),
        forall|k: nat|
            k < n ==> maps_to_itself(
                crate::paging::identity_map_range(m, al, root, first, n, perm).0,
                root,
                #[trigger] ((first + 4096 * k) as u64),
                perm,
            ),
        forall|va: u64|
            va % 4096 == 0 && va < 0x80_0000_0000 && maps_to_itself(m, root, va, perm)
                ==> #[trigger] maps_to_itself(
                crate::paging::identity_map_range(m, al, root, first, n, perm).0,
                root,
                va,
                perm,
            ),
    decreases n,
{
    if n > 0 {
        let prev = crate::paging::identity_map_range(m, al, root, first, (n - 1) as nat, perm);
        let a = (first + 4096 * (n - 1)) as u64;
        crate::paging::lemma_can_alloc_split(
            al,
            crate::paging::identity_map_pages(m, al, root, first, (n - 1) as nat, perm),
            map_pages(prev.0, prev.1, root, a, 2),
        );
        lemma_identity_map_range(m, al, root, first, (n - 1) as nat, perm);
        crate::paging::lemma_identity_map_range_alloc(m, al, root, first, (n - 1) as nat, perm);
        assert(a % 4096 == 0) by (nonlinear_arith)
            requires
                first % 4096 == 0,
                a == first + 4096 * (n - 1),
        ;
        assert(prev.1.base_addr % 4096 == 0);
        lemma_map_step(prev.0, prev.1, root, a, a, perm);
        let cur = map_walk(prev.0, prev.1, root, a, a, perm, 2);
        assert(cur == crate::paging::identity_map_range(m, al, root, first, n, perm));
        assert(pool_page(root, al.base_addr, prev.1.next_page()));
        lemma_map_then_resolve(prev.0, prev.1, root, a, a, perm);
        lemma_aligned_address(a, a);
        assert(resolves_to_itself(cur.0, root, a));
        assert forall|va: u64|
            va % 4096 == 0 && va < 0x80_0000_0000 && resolves_to_itself(prev.0, root, va)
                implies #[trigger] resolves_to_itself(cur.0, root, va) by {
            lemma_aligned_address(a, va);
        }
        assert forall|k: nat| k < n implies resolves_to_itself(cur.0, root, #[trigger] ((first + 4096 * k) as u64)) by {
            if k < n - 1 {
                let va = (first + 4096 * k) as u64;
                assert(va % 4096 == 0) by (nonlinear_arith)
                    requires
                        first % 4096 == 0,
                        va == first + 4096 * k,
                ;
                assert(resolves_to_itself(prev.0, root, va));
            }
        }
        assert forall|va: u64|
            va % 4096 == 0 && va < 0x80_0000_0000 && resolves_to_itself(m, root, va)
                implies #[trigger] resolves_to_itself(cur.0, root, va) by {
            assert(resolves_to_itself(prev.0, root, va));
        }
        assert(maps_to_itself(cur.0, root, a, perm));
        assert forall|va: u64|
            va % 4096 == 0 && va < 0x80_0000_0000 && maps_to_itself(prev.0, root, va, perm)
                implies #[trigger] maps_to_itself(cur.0, root, va, perm) by {
            lemma_aligned_address(a, va);
            if !same_indices(a, va) {
                assert(resolve_walk(cur.0, root, va, 2) == resolve_walk(prev.0, root, va, 2)
                    && leaf_of(cur.0, root, va) == leaf_of(prev.0, root, va));
            }
        }
        assert forall|k: nat| k < n implies maps_to_itself(cur.0, root, #[trigger] ((first + 4096 * k) as u64), perm) by {
            if k < n - 1 {
                let va = (first + 4096 * k) as u64;
                assert(va % 4096 == 0) by (nonlinear_arith)
                    requires
                        first % 4096 == 0,
                        va == first + 4096 * k,
                ;
                assert(maps_to_itself(prev.0, root, va, perm));
            }
        }
        assert forall|va: u64|
            va % 4096 == 0 && va < 0x80_0000_0000 && maps_to_itself(m, root, va, perm)
                implies #[trigger] maps_to_itself(cur.0, root, va, perm) by {
            assert(maps_to_itself(prev.0, root, va, perm));
        }
    }
}


/// The page table that the guest builds translates each page it maps to
/// itself: the pages from the start of DRAM to the end of the kernel, the
/// UART page and the user test pages; the leaf entry of each allows reading,
/// writing and executing it.
pub proof fn lemma_guest_page_table_identity(m: spec_fn(u64) -> u64, al: AllocState, elf_end: u64)
    requires
        al.wf(),
        al.can_alloc(guest::guest_pages(m, al, elf_end)),
        al.base_addr % 4096 == 0,
        guest::DRAM_START <= elf_end,
        elf_end < 0x80_0000_0000 - 4096,
    ensures
        forall|k: nat|
            k < guest::kernel_pages(elf_end) ==> maps_to_itself(
                guest::guest_page_table(m, al, elf_end).0,
                al.next_page(),
                #[trigger] ((guest::DRAM_START + 4096 * k) as u64),
                guest::rwx(),
            ),
        maps_to_itself(guest::guest_page_table(m, al, elf_end).0, al.next_page(), guest::UART_BASE, guest::rwx()),
        forall|k: nat|
            k < guest::user_test_pages() ==> maps_to_itself(
                guest::guest_page_table(m, al, elf_end).0,
                al.next_page(),
                #[trigger] ((guest::USER_TEST_START + 4096 * k) as u64),
                guest::rwx(),
            ),
        forall|k: nat|
            k < guest::kernel_pages(elf_end) ==> leaf_of(
                guest::guest_page_table(m, al, elf_end).0,
                al.next_page(),
                #[trigger] ((guest::DRAM_START + 4096 * k) as u64),
            ) & 0xe == 0xe,
        leaf_of(guest::guest_page_table(m, al, elf_end).0, al.next_page(), guest::UART_BASE) & 0xe == 0xe,
        forall|k: nat|
            k < guest::user_test_pages() ==> leaf_of(
                guest::guest_page_table(m, al, elf_end).0,
                al.next_page(),
                #[trigger] ((guest::USER_TEST_START + 4096 * k) as u64),
            ) & 0xe == 0xe,
{
    let root = al.next_page();
    let lo = al.base_addr;
    let kp = guest::kernel_pages(elf_end);
    let up = guest::user_test_pages();
    let perm = guest::rwx();
    assert(perm < 1024 && (perm as u64) & 0xe == 0xe) by (bit_vector)
        requires
            perm == 2u16 | 4u16 | 8u16,
    ;
    assert(root % 4096 == 0) by (nonlinear_arith)
        requires
            lo % 4096 == 0,
            root == lo + 4096 * al.last_index,
    ;
    let m0 = mem_clear_page(m, root);
    let al1 = al.advanced(1);
    let c1 = crate::paging::identity_map_pages(m0, al1, root, guest::DRAM_START, kp, perm);
    let s1 = crate::paging::identity_map_range(m0, al1, root, guest::DRAM_START, kp, perm);
    let c2 = map_pages(s1.0, s1.1, root, guest::UART_BASE, 2);
    let s2 = map_walk(s1.0, s1.1, root, guest::UART_BASE, guest::UART_BASE, perm, 2);
    let c3 = crate::paging::identity_map_pages(s2.0, s2.1, root, guest::USER_TEST_START, up, perm);
    assert(guest::guest_pages(m, al, elf_end) == 1 + (c1 + (c2 + c3)));
    crate::paging::lemma_can_alloc_split(al, 1, c1 + (c2 + c3));
    crate::paging::lemma_can_alloc_split(al1, c1, c2 + c3);
    crate::paging::lemma_identity_map_range_alloc(m0, al1, root, guest::DRAM_START, kp, perm);
    crate::paging::lemma_can_alloc_split(s1.1, c2, c3);
    crate::paging::lemma_map_walk_alloc(s1.0, s1.1, root, guest::UART_BASE, guest::UART_BASE, perm, 2);
    assert(al1.next_page() == root + 4096);
    assert(!word_valid(0)) by (bit_vector);
    assert forall|i: u64| !#[trigger] has_l1(m0, root, i) by {
        if i < 512 {
            lemma_entries_apart(root, i, root, i);
        }
    }
    assert(tree_wf(m0, root, lo, al1.next_page()));

    lemma_identity_map_range(m0, al1, root, guest::DRAM_START, kp, perm);

    lemma_map_step(s1.0, s1.1, root, guest::UART_BASE, guest::UART_BASE, perm);
    lemma_map_then_resolve(s1.0, s1.1, root, guest::UART_BASE, guest::UART_BASE, perm);
    lemma_aligned_address(guest::UART_BASE, guest::UART_BASE);
    assert(maps_to_itself(s2.0, root, guest::UART_BASE, perm));
    assert forall|k: nat| k < kp implies maps_to_itself(s2.0, root, #[trigger] ((guest::DRAM_START + 4096 * k) as u64), perm) by {
        let va = (guest::DRAM_START + 4096 * k) as u64;
        assert(va % 4096 == 0) by (nonlinear_arith)
            requires
                va == 0x8000_0000 + 4096 * k,
        ;
        assert(maps_to_itself(s1.0, root, va, perm));
        lemma_aligned_address(guest::UART_BASE, va);
        assert(resolve_walk(s2.0, root, va, 2) == resolve_walk(s1.0, root, va, 2)
            && leaf_of(s2.0, root, va) == leaf_of(s1.0, root, va));
    }

    lemma_identity_map_range(s2.0, s2.1, root, guest::USER_TEST_START, up, perm);
    let s3 = crate::paging::identity_map_range(s2.0, s2.1, root, guest::USER_TEST_START, up, perm);
    assert(s3 == guest::guest_page_table(m, al, elf_end));
    assert forall|k: nat| k < kp implies maps_to_itself(s3.0, root, #[trigger] ((guest::DRAM_START + 4096 * k) as u64), perm) by {
        let va = (guest::DRAM_START + 4096 * k) as u64;
        assert(va % 4096 == 0) by (nonlinear_arith)
            requires
                va == 0x8000_0000 + 4096 * k,
        ;
        assert(maps_to_itself(s2.0, root, va, perm));
    }
    assert(maps_to_itself(s3.0, root, guest::UART_BASE, perm));
    lemma_leaf_word_perm(guest::UART_BASE, perm);
    assert forall|k: nat| k < kp implies leaf_of(s3.0, root, #[trigger] ((guest::DRAM_START + 4096 * k) as u64)) & 0xe == 0xe by {
        let va = (guest::DRAM_START + 4096 * k) as u64;
        assert(va % 4096 == 0) by (nonlinear_arith)
            requires
                va == 0x8000_0000 + 4096 * k,
        ;
        assert(maps_to_itself(s3.0, root, va, perm));
        lemma_leaf_word_perm(va, perm);
    }
    assert forall|k: nat| k < up implies leaf_of(s3.0, root, #[trigger] ((guest::USER_TEST_START + 4096 * k) as u64)) & 0xe == 0xe by {
        let va = (guest::USER_TEST_START + 4096 * k) as u64;
        assert(va % 4096 == 0) by (nonlinear_arith)
            requires
                va == 0x8201_0000 + 4096 * k,
        ;
        assert(maps_to_itself(s3.0, root, va, perm));
        lemma_leaf_word_perm(va, perm);
    }
}

} // verus!
