use vstd::prelude::*;
use crate::constants::PAGE_V;
use crate::mem::{MemView, lemma_word_agree, lemma_store_u64, lemma_zero_word, store_u64, PhysMem};

pub use crate::mem::alloc_pages;

verus! {

// ---------------------------------------------------------------------------
// Sv39 page-table entries and virtual page numbers
// ---------------------------------------------------------------------------

/// Index into the root (level-2) table for virtual address `va`.
pub open spec fn vpn2(va: u64) -> u64 {
    (va >> 30u64) & 0x1ff
}

/// Index into the level-1 table for virtual address `va`.
pub open spec fn vpn1(va: u64) -> u64 {
    (va >> 21u64) & 0x1ff
}

/// Index into the level-0 table for virtual address `va`.
pub open spec fn vpn0(va: u64) -> u64 {
    (va >> 12u64) & 0x1ff
}

/// The 27-bit virtual page number that an Sv39 walk of `va` uses.
pub open spec fn vpn(va: u64) -> u64 {
    (va >> 12u64) & 0x7ff_ffff
}

/// Level-2, level-1 and level-0 indices of virtual page number `k`.
pub open spec fn key2(k: u64) -> int {
    ((k >> 18u64) & 0x1ff) as int
}

pub open spec fn key1(k: u64) -> int {
    ((k >> 9u64) & 0x1ff) as int
}

pub open spec fn key0(k: u64) -> int {
    (k & 0x1ff) as int
}

/// The entry's valid bit is set.
pub open spec fn pte_valid(e: u64) -> bool {
    e & PAGE_V != 0
}

/// The physical address an entry points to: its page number shifted into place.
pub open spec fn pte_target(e: u64) -> u64 {
    (e << 2u64) & !0xfffu64
}

/// The entry that links a table to the next-level table at `a`.
pub open spec fn table_pte(a: u64) -> u64 {
    ((a / 4096u64) << 10u64) | PAGE_V
}

/// The entry that maps a page to the physical page at `paddr` with `flags`.
pub open spec fn leaf_pte(paddr: u64, flags: u64) -> u64 {
    ((paddr / 4096u64) << 10u64) | flags | PAGE_V
}

// ---------------------------------------------------------------------------
// Walking a three-level table held in physical memory
// ---------------------------------------------------------------------------

/// Entry `i` of the table at physical address `t`.
pub open spec fn entry(m: MemView, t: int, i: int) -> u64 {
    m.word(t + 8 * i)
}

pub open spec fn l1_present(m: MemView, t2: int, i: int) -> bool {
    pte_valid(entry(m, t2, i))
}

pub open spec fn l1_table(m: MemView, t2: int, i: int) -> int {
    pte_target(entry(m, t2, i)) as int
}

pub open spec fn l0_present(m: MemView, t2: int, i: int, j: int) -> bool {
    l1_present(m, t2, i) && pte_valid(entry(m, l1_table(m, t2, i), j))
}

pub open spec fn l0_table(m: MemView, t2: int, i: int, j: int) -> int {
    pte_target(entry(m, l1_table(m, t2, i), j)) as int
}

pub open spec fn leaf_entry(m: MemView, t2: int, i: int, j: int, l: int) -> u64 {
    entry(m, l0_table(m, t2, i, j), l)
}

/// The leaf entry that a walk along indices `i, j, l` reaches, if any.
pub open spec fn translate(m: MemView, t2: int, i: int, j: int, l: int) -> Option<u64> {
    if l0_present(m, t2, i, j) && pte_valid(leaf_entry(m, t2, i, j, l)) {
        Some(leaf_entry(m, t2, i, j, l))
    } else {
        None
    }
}

/// The mappings of the table rooted at `t2`: virtual page number to leaf entry.
pub open spec fn pt_view(m: MemView, t2: int) -> Map<u64, u64> {
    Map::new(
        |k: u64| k < 0x800_0000 && translate(m, t2, key2(k), key1(k), key0(k)) is Some,
        |k: u64|
            match translate(m, t2, key2(k), key1(k), key0(k)) {
                Some(e) => e,
                None => 0,
            },
    )
}

/// `t` is a page-aligned page that the allocator has handed out.
pub open spec fn table_ok(m: MemView, t: int) -> bool {
    &&& t % 4096 == 0
    &&& m.base <= t
    &&& t + 4096 <= m.next
}

/// The tables reachable from `t2` are allocated pages, and no page serves
/// twice: not at two levels, and not for two different index paths.
pub open spec fn pt_wf(m: MemView, t2: int) -> bool {
    &&& table_ok(m, t2)
    &&& forall|i: int|
        0 <= i < 512 && #[trigger] l1_present(m, t2, i) ==> table_ok(m, l1_table(m, t2, i))
            && l1_table(m, t2, i) != t2
    &&& forall|i: int, j: int|
        0 <= i < 512 && 0 <= j < 512 && #[trigger] l0_present(m, t2, i, j) ==> table_ok(
            m,
            l0_table(m, t2, i, j),
        ) && l0_table(m, t2, i, j) != t2
    &&& forall|i: int, i2: int|
        0 <= i < 512 && 0 <= i2 < 512 && i != i2 && #[trigger] l1_present(m, t2, i)
            && #[trigger] l1_present(m, t2, i2) ==> l1_table(m, t2, i) != l1_table(m, t2, i2)
    &&& forall|i: int, j: int, i2: int|
        0 <= i < 512 && 0 <= j < 512 && 0 <= i2 < 512 && #[trigger] l0_present(m, t2, i, j)
            && #[trigger] l1_present(m, t2, i2) ==> l0_table(m, t2, i, j) != l1_table(m, t2, i2)
    &&& forall|i: int, j: int, i2: int, j2: int|
        0 <= i < 512 && 0 <= j < 512 && 0 <= i2 < 512 && 0 <= j2 < 512 && (i != i2 || j != j2)
            && #[trigger] l0_present(m, t2, i, j) && #[trigger] l0_present(m, t2, i2, j2)
            ==> l0_table(m, t2, i, j) != l0_table(m, t2, i2, j2)
}

/// Every table page reachable from `t2` ends at or below `b`.
pub open spec fn pt_below(m: MemView, t2: int, b: int) -> bool {
    &&& t2 + 4096 <= b
    &&& forall|i: int| 0 <= i < 512 && #[trigger] l1_present(m, t2, i) ==> l1_table(m, t2, i) + 4096 <= b
    &&& forall|i: int, j: int|
        0 <= i < 512 && 0 <= j < 512 && #[trigger] l0_present(m, t2, i, j) ==> l0_table(m, t2, i, j)
            + 4096 <= b
}

/// The page at `t` does not overlap `[lo, hi)`.
pub open spec fn page_outside(t: int, lo: int, hi: int) -> bool {
    t + 4096 <= lo || t >= hi
}

/// No table page reachable from `t2` overlaps `[lo, hi)`.
pub open spec fn pt_avoids(m: MemView, t2: int, lo: int, hi: int) -> bool {
    &&& page_outside(t2, lo, hi)
    &&& forall|i: int|
        0 <= i < 512 && #[trigger] l1_present(m, t2, i) ==> page_outside(l1_table(m, t2, i), lo, hi)
    &&& forall|i: int, j: int|
        0 <= i < 512 && 0 <= j < 512 && #[trigger] l0_present(m, t2, i, j) ==> page_outside(
            l0_table(m, t2, i, j),
            lo,
            hi,
        )
}

/// Number of table pages `map_page` must allocate to map `va` under `t2`.
pub open spec fn tables_needed(m: MemView, t2: int, va: u64) -> int {
    if !l1_present(m, t2, vpn2(va) as int) {
        2
    } else if !l0_present(m, t2, vpn2(va) as int, vpn1(va) as int) {
        1
    } else {
        0
    }
}

/// Root slots that point to a level-1 table.
pub open spec fn l1_set(m: MemView, t2: int) -> Set<int> {
    Set::new(|i: int| 0 <= i < 512 && l1_present(m, t2, i))
}

/// Index pairs whose level-1 entry points to a level-0 table.
pub open spec fn l0_set(m: MemView, t2: int) -> Set<(int, int)> {
    Set::new(|p: (int, int)| 0 <= p.0 < 512 && 0 <= p.1 < 512 && l0_present(m, t2, p.0, p.1))
}

/// Table pages needed to map `va` given the slots that already hold tables:
/// one for a new level-1 table, one for a new level-0 table.
pub open spec fn page_need(l1: Set<int>, l0: Set<(int, int)>, va: u64) -> int {
    (if l1.contains(vpn2(va) as int) {
        0int
    } else {
        1int
    }) + (if l0.contains((vpn2(va) as int, vpn1(va) as int)) {
        0int
    } else {
        1int
    })
}

/// The 4096 bytes of page `t` are zero.
pub open spec fn page_zero(m: MemView, t: int) -> bool {
    forall|k: int| t - m.base <= k < t - m.base + 4096 ==> #[trigger] m.bytes[k] == 0
}

// ---------------------------------------------------------------------------
// Bit-level facts
// ---------------------------------------------------------------------------

proof fn lemma_table_pte(a: u64)
    requires
        a % 4096 == 0,
    ensures
        pte_valid(table_pte(a)),
        pte_target(table_pte(a)) == a,
{
    assert(a % 4096 == 0 ==> (((a / 4096u64) << 10u64) | 1u64) & 1u64 != 0) by (bit_vector);
    assert(a % 4096 == 0 ==> (((((a / 4096u64) << 10u64) | 1u64) << 2u64) & !0xfffu64) == a)
        by (bit_vector);
}

proof fn lemma_leaf_pte_valid(paddr: u64, flags: u64)
    ensures
        pte_valid(leaf_pte(paddr, flags)),
{
    assert((((paddr / 4096u64) << 10u64) | flags | 1u64) & 1u64 != 0) by (bit_vector);
}

proof fn lemma_zero_invalid()
    ensures
        !pte_valid(0),
{
    assert(0u64 & 1u64 == 0) by (bit_vector);
}

/// The indices of `vpn(va)` are the indices a walk of `va` uses; distinct page
/// numbers differ in at least one index.
pub proof fn lemma_vpn_indices(va: u64)
    ensures
        vpn(va) < 0x800_0000,
        key2(vpn(va)) == vpn2(va),
        key1(vpn(va)) == vpn1(va),
        key0(vpn(va)) == vpn0(va),
        vpn2(va) < 512,
        vpn1(va) < 512,
        vpn0(va) < 512,
{
    assert((va >> 12u64) & 0x7ff_ffffu64 < 0x800_0000u64) by (bit_vector);
    assert((((va >> 12u64) & 0x7ff_ffffu64) >> 18u64) & 0x1ffu64 == (va >> 30u64) & 0x1ffu64)
        by (bit_vector);
    assert((((va >> 12u64) & 0x7ff_ffffu64) >> 9u64) & 0x1ffu64 == (va >> 21u64) & 0x1ffu64)
        by (bit_vector);
    assert(((va >> 12u64) & 0x7ff_ffffu64) & 0x1ffu64 == (va >> 12u64) & 0x1ffu64)
        by (bit_vector);
    assert((va >> 30u64) & 0x1ffu64 < 512) by (bit_vector);
    assert((va >> 21u64) & 0x1ffu64 < 512) by (bit_vector);
    assert((va >> 12u64) & 0x1ffu64 < 512) by (bit_vector);
}

proof fn lemma_key_indices(k: u64)
    ensures
        0 <= key2(k) < 512,
        0 <= key1(k) < 512,
        0 <= key0(k) < 512,
{
    assert((k >> 18u64) & 0x1ffu64 < 512) by (bit_vector);
    assert((k >> 9u64) & 0x1ffu64 < 512) by (bit_vector);
    assert(k & 0x1ffu64 < 512) by (bit_vector);
}

proof fn lemma_key_injective(k1: u64, k2: u64)
    requires
        k1 < 0x800_0000,
        k2 < 0x800_0000,
        key2(k1) == key2(k2),
        key1(k1) == key1(k2),
        key0(k1) == key0(k2),
    ensures
        k1 == k2,
{
    assert(k1 < 0x800_0000u64 && k2 < 0x800_0000u64 && (k1 >> 18u64) & 0x1ffu64 == (k2 >> 18u64)
        & 0x1ffu64 && (k1 >> 9u64) & 0x1ffu64 == (k2 >> 9u64) & 0x1ffu64 && k1 & 0x1ffu64 == k2
        & 0x1ffu64 ==> k1 == k2) by (bit_vector);
}

/// Slots of two different page-aligned tables never overlap.
proof fn lemma_slots_apart(t: int, x: int, t2: int, y: int)
    requires
        t % 4096 == 0,
        t2 % 4096 == 0,
        0 <= x < 512,
        0 <= y < 512,
        t != t2 || x != y,
    ensures
        t + 8 * x + 8 <= t2 + 8 * y || t2 + 8 * y + 8 <= t + 8 * x,
{
    if t != t2 {
        let a = t / 4096;
        let b = t2 / 4096;
        assert(t == 4096 * a);
        assert(t2 == 4096 * b);
    }
}

// ---------------------------------------------------------------------------
// How memory changes affect a table
// ---------------------------------------------------------------------------

/// An entry inside an allocated table reads the same in a view that agrees below `b`.
proof fn lemma_entry_agree(m1: MemView, m2: MemView, t: int, i: int, b: int)
    requires
        MemView::agree_below(m1, m2, b),
        m1.base <= t,
        t % 4096 == 0,
        t + 4096 <= b,
        b <= m1.end(),
        0 <= i < 512,
    ensures
        entry(m2, t, i) == entry(m1, t, i),
{
    lemma_word_agree(m1, m2, t + 8 * i);
}

/// A table whose pages all lie below `b` is untouched by any change at or above `b`.
pub proof fn lemma_pt_frame(m1: MemView, m2: MemView, t2: int, b: int)
    requires
        pt_wf(m1, t2),
        pt_below(m1, t2, b),
        b <= m1.end(),
        MemView::agree_below(m1, m2, b),
        m2.next >= m1.next,
    ensures
        pt_wf(m2, t2),
        pt_below(m2, t2, b),
        pt_view(m2, t2) == pt_view(m1, t2),
        l1_set(m2, t2) == l1_set(m1, t2),
        l0_set(m2, t2) == l0_set(m1, t2),
        forall|i: int|
            0 <= i < 512 ==> #[trigger] l1_present(m2, t2, i) == l1_present(m1, t2, i) && l1_table(
                m2,
                t2,
                i,
            ) == l1_table(m1, t2, i),
        forall|i: int, j: int|
            0 <= i < 512 && 0 <= j < 512 && l1_present(m1, t2, i) ==> #[trigger] l0_present(
                m2,
                t2,
                i,
                j,
            ) == l0_present(m1, t2, i, j) && l0_table(m2, t2, i, j) == l0_table(m1, t2, i, j),
        forall|lo: int, hi: int| #[trigger] pt_avoids(m1, t2, lo, hi) ==> pt_avoids(m2, t2, lo, hi),
{
    assert forall|i: int| 0 <= i < 512 implies #[trigger] l1_present(m2, t2, i) == l1_present(
        m1,
        t2,
        i,
    ) && l1_table(m2, t2, i) == l1_table(m1, t2, i) by {
        lemma_entry_agree(m1, m2, t2, i, b);
    }
    assert forall|i: int, j: int|
        0 <= i < 512 && 0 <= j < 512 && l1_present(m1, t2, i) implies #[trigger] l0_present(
        m2,
        t2,
        i,
        j,
    ) == l0_present(m1, t2, i, j) && l0_table(m2, t2, i, j) == l0_table(m1, t2, i, j) by {
        lemma_entry_agree(m1, m2, t2, i, b);
        lemma_entry_agree(m1, m2, l1_table(m1, t2, i), j, b);
    }
    assert forall|i: int, j: int, l: int|
        0 <= i < 512 && 0 <= j < 512 && 0 <= l < 512 implies #[trigger] translate(m2, t2, i, j, l)
        == translate(m1, t2, i, j, l) by {
        lemma_entry_agree(m1, m2, t2, i, b);
        if l1_present(m1, t2, i) {
            lemma_entry_agree(m1, m2, l1_table(m1, t2, i), j, b);
            if l0_present(m1, t2, i, j) {
                lemma_entry_agree(m1, m2, l0_table(m1, t2, i, j), l, b);
            }
        }
    }
    assert forall|k: u64| #[trigger] pt_view(m2, t2).dom().contains(k) == pt_view(
        m1,
        t2,
    ).dom().contains(k) && (pt_view(m1, t2).dom().contains(k) ==> pt_view(m2, t2)[k] == pt_view(
        m1,
        t2,
    )[k]) by {
        lemma_key_indices(k);
        assert(translate(m2, t2, key2(k), key1(k), key0(k)) == translate(
            m1,
            t2,
            key2(k),
            key1(k),
            key0(k),
        ));
    }
    assert(pt_view(m2, t2) =~= pt_view(m1, t2));
    assert(l1_set(m2, t2) =~= l1_set(m1, t2));
    assert(l0_set(m2, t2) =~= l0_set(m1, t2));
}

/// After a word write at slot `wx` of table `wt`, that slot reads the written
/// word and every other slot of an in-range table reads as before.
proof fn lemma_entry_after_write(m1: MemView, m2: MemView, wt: int, wx: int, v: u64, t: int, x: int)
    requires
        MemView::is_word_write(m1, m2, wt + 8 * wx, v),
        m1.base <= wt,
        wt % 4096 == 0,
        wt + 4096 <= m1.end(),
        0 <= wx < 512,
        m1.base <= t,
        t % 4096 == 0,
        t + 4096 <= m1.end(),
        0 <= x < 512,
    ensures
        (t == wt && x == wx) ==> entry(m2, t, x) == v,
        !(t == wt && x == wx) ==> entry(m2, t, x) == entry(m1, t, x),
{
    lemma_store_u64(m1.bytes, wt + 8 * wx - m1.base, v, t + 8 * x - m1.base);
    if !(t == wt && x == wx) {
        lemma_slots_apart(t, x, wt, wx);
    }
}

/// After a word write, every byte outside the written word is unchanged.
proof fn lemma_write_agree(m1: MemView, m2: MemView, a: int, v: u64, lo: int, hi: int)
    requires
        MemView::is_word_write(m1, m2, a, v),
        m1.base <= a,
        a + 8 <= m1.end(),
        a + 8 <= lo || a >= hi,
    ensures
        MemView::agree_on(m1, m2, lo, hi),
{
    lemma_store_u64(m1.bytes, a - m1.base, v, a - m1.base);
}

/// The entries of a zero page are invalid.
proof fn lemma_zero_page_entries(m: MemView, t: int)
    requires
        page_zero(m, t),
        m.base <= t,
        t + 4096 <= m.end(),
    ensures
        forall|x: int| 0 <= x < 512 ==> !pte_valid(#[trigger] entry(m, t, x)),
{
    assert forall|x: int| 0 <= x < 512 implies !pte_valid(#[trigger] entry(m, t, x)) by {
        lemma_zero_word(m, t + 8 * x);
        lemma_zero_invalid();
    }
}

/// Writing a valid leaf entry into an existing level-0 table adds exactly that mapping.
proof fn lemma_write_leaf(m1: MemView, m2: MemView, t2: int, i: int, j: int, l: int, v: u64, k: u64)
    requires
        m1.wf(),
        pt_wf(m1, t2),
        0 <= i < 512,
        0 <= j < 512,
        0 <= l < 512,
        l0_present(m1, t2, i, j),
        MemView::is_word_write(m1, m2, l0_table(m1, t2, i, j) + 8 * l, v),
        pte_valid(v),
        k < 0x800_0000,
        key2(k) == i,
        key1(k) == j,
        key0(k) == l,
    ensures
        pt_wf(m2, t2),
        pt_view(m2, t2) == pt_view(m1, t2).insert(k, v),
        l1_set(m2, t2) == l1_set(m1, t2),
        l0_set(m2, t2) == l0_set(m1, t2),
        forall|lo: int, hi: int| #[trigger] pt_avoids(m1, t2, lo, hi) ==> pt_avoids(m2, t2, lo, hi),
{
    let wt = l0_table(m1, t2, i, j);
    assert forall|i2: int| 0 <= i2 < 512 implies #[trigger] l1_present(m2, t2, i2) == l1_present(
        m1,
        t2,
        i2,
    ) && l1_table(m2, t2, i2) == l1_table(m1, t2, i2) by {
        lemma_entry_after_write(m1, m2, wt, l, v, t2, i2);
    }
    assert forall|i2: int, j2: int|
        0 <= i2 < 512 && 0 <= j2 < 512 && l1_present(m1, t2, i2) implies #[trigger] l0_present(
        m2,
        t2,
        i2,
        j2,
    ) == l0_present(m1, t2, i2, j2) && l0_table(m2, t2, i2, j2) == l0_table(m1, t2, i2, j2) by {
        lemma_entry_after_write(m1, m2, wt, l, v, t2, i2);
        lemma_entry_after_write(m1, m2, wt, l, v, l1_table(m1, t2, i2), j2);
    }
    assert forall|i2: int, j2: int, l2: int|
        0 <= i2 < 512 && 0 <= j2 < 512 && 0 <= l2 < 512 implies #[trigger] translate(
        m2,
        t2,
        i2,
        j2,
        l2,
    ) == if i2 == i && j2 == j && l2 == l {
        Some(v)
    } else {
        translate(m1, t2, i2, j2, l2)
    } by {
        lemma_entry_after_write(m1, m2, wt, l, v, t2, i2);
        if l1_present(m1, t2, i2) {
            lemma_entry_after_write(m1, m2, wt, l, v, l1_table(m1, t2, i2), j2);
            if l0_present(m1, t2, i2, j2) {
                lemma_entry_after_write(m1, m2, wt, l, v, l0_table(m1, t2, i2, j2), l2);
            }
        }
    }
    assert forall|k2: u64| #[trigger] pt_view(m2, t2).dom().contains(k2) == pt_view(
        m1,
        t2,
    ).insert(k, v).dom().contains(k2) && (pt_view(m2, t2).dom().contains(k2) ==> pt_view(m2, t2)[k2]
        == pt_view(m1, t2).insert(k, v)[k2]) by {
        lemma_key_indices(k2);
        if k2 < 0x800_0000 && key2(k2) == i && key1(k2) == j && key0(k2) == l {
            lemma_key_injective(k, k2);
        }
    }
    assert(pt_view(m2, t2) =~= pt_view(m1, t2).insert(k, v));
    assert(l1_set(m2, t2) =~= l1_set(m1, t2));
    assert(l0_set(m2, t2) =~= l0_set(m1, t2));
}

/// Linking a fresh zero page as the level-0 table at `(i, j)` leaves the mappings alone.
proof fn lemma_attach_l0(m1: MemView, m2: MemView, t2: int, i: int, j: int, t0: int)
    requires
        m1.wf(),
        pt_wf(m1, t2),
        0 <= i < 512,
        0 <= j < 512,
        l1_present(m1, t2, i),
        !l0_present(m1, t2, i, j),
        table_ok(m1, t0),
        pt_below(m1, t2, t0),
        page_zero(m1, t0),
        t0 <= u64::MAX,
        MemView::is_word_write(m1, m2, l1_table(m1, t2, i) + 8 * j, table_pte(t0 as u64)),
    ensures
        pt_wf(m2, t2),
        pt_view(m2, t2) == pt_view(m1, t2),
        l1_set(m2, t2) == l1_set(m1, t2),
        l0_set(m2, t2) == l0_set(m1, t2).insert((i, j)),
        l1_present(m2, t2, i),
        l0_present(m2, t2, i, j),
        l0_table(m2, t2, i, j) == t0,
        pt_below(m2, t2, t0 + 4096),
        forall|lo: int, hi: int| #[trigger] pt_avoids(m1, t2, lo, hi) && t0 >= hi ==> pt_avoids(m2, t2, lo, hi),
{
    let wt = l1_table(m1, t2, i);
    let v = table_pte(t0 as u64);
    lemma_table_pte(t0 as u64);
    lemma_zero_page_entries(m1, t0);
    assert forall|i2: int| 0 <= i2 < 512 implies #[trigger] l1_present(m2, t2, i2) == l1_present(
        m1,
        t2,
        i2,
    ) && l1_table(m2, t2, i2) == l1_table(m1, t2, i2) by {
        lemma_entry_after_write(m1, m2, wt, j, v, t2, i2);
    }
    assert forall|i2: int, j2: int|
        0 <= i2 < 512 && 0 <= j2 < 512 && l1_present(m1, t2, i2) && !(i2 == i && j2 == j)
        implies #[trigger] l0_present(m2, t2, i2, j2) == l0_present(m1, t2, i2, j2) && l0_table(
        m2,
        t2,
        i2,
        j2,
    ) == l0_table(m1, t2, i2, j2) by {
        lemma_entry_after_write(m1, m2, wt, j, v, t2, i2);
        lemma_entry_after_write(m1, m2, wt, j, v, l1_table(m1, t2, i2), j2);
    }
    lemma_entry_after_write(m1, m2, wt, j, v, t2, i);
    lemma_entry_after_write(m1, m2, wt, j, v, wt, j);
    assert forall|l: int| 0 <= l < 512 implies entry(m2, t0, l) == entry(m1, t0, l) by {
        lemma_entry_after_write(m1, m2, wt, j, v, t0, l);
    }
    assert forall|i2: int, j2: int, l2: int|
        0 <= i2 < 512 && 0 <= j2 < 512 && 0 <= l2 < 512 implies #[trigger] translate(
        m2,
        t2,
        i2,
        j2,
        l2,
    ) == translate(m1, t2, i2, j2, l2) by {
        lemma_entry_after_write(m1, m2, wt, j, v, t2, i2);
        if l1_present(m1, t2, i2) {
            lemma_entry_after_write(m1, m2, wt, j, v, l1_table(m1, t2, i2), j2);
            if i2 == i && j2 == j {
                lemma_entry_after_write(m1, m2, wt, j, v, t0, l2);
            } else if l0_present(m1, t2, i2, j2) {
                lemma_entry_after_write(m1, m2, wt, j, v, l0_table(m1, t2, i2, j2), l2);
            }
        }
    }
    assert forall|k2: u64| #[trigger] pt_view(m2, t2).dom().contains(k2) == pt_view(
        m1,
        t2,
    ).dom().contains(k2) && (pt_view(m2, t2).dom().contains(k2) ==> pt_view(m2, t2)[k2] == pt_view(
        m1,
        t2,
    )[k2]) by {
        lemma_key_indices(k2);
    }
    assert(pt_view(m2, t2) =~= pt_view(m1, t2));
    assert(l1_set(m2, t2) =~= l1_set(m1, t2));
    assert(l0_set(m2, t2) =~= l0_set(m1, t2).insert((i, j)));
}

/// Linking a fresh zero page as the level-1 table at root slot `i` leaves the mappings alone.
proof fn lemma_attach_l1(m1: MemView, m2: MemView, t2: int, i: int, t1: int)
    requires
        m1.wf(),
        pt_wf(m1, t2),
        0 <= i < 512,
        !l1_present(m1, t2, i),
        table_ok(m1, t1),
        pt_below(m1, t2, t1),
        page_zero(m1, t1),
        t1 <= u64::MAX,
        MemView::is_word_write(m1, m2, t2 + 8 * i, table_pte(t1 as u64)),
    ensures
        pt_wf(m2, t2),
        pt_view(m2, t2) == pt_view(m1, t2),
        l1_set(m2, t2) == l1_set(m1, t2).insert(i),
        l0_set(m2, t2) == l0_set(m1, t2),
        l1_present(m2, t2, i),
        l1_table(m2, t2, i) == t1,
        forall|j: int| 0 <= j < 512 ==> !#[trigger] l0_present(m2, t2, i, j),
        pt_below(m2, t2, t1 + 4096),
        forall|lo: int, hi: int| #[trigger] pt_avoids(m1, t2, lo, hi) && t1 >= hi ==> pt_avoids(m2, t2, lo, hi),
{
    let v = table_pte(t1 as u64);
    lemma_table_pte(t1 as u64);
    lemma_zero_page_entries(m1, t1);
    assert forall|i2: int| 0 <= i2 < 512 && i2 != i implies #[trigger] l1_present(m2, t2, i2)
        == l1_present(m1, t2, i2) && l1_table(m2, t2, i2) == l1_table(m1, t2, i2) by {
        lemma_entry_after_write(m1, m2, t2, i, v, t2, i2);
    }
    lemma_entry_after_write(m1, m2, t2, i, v, t2, i);
    assert forall|j: int| 0 <= j < 512 implies entry(m2, t1, j) == entry(m1, t1, j) by {
        lemma_entry_after_write(m1, m2, t2, i, v, t1, j);
    }
    assert forall|i2: int, j2: int|
        0 <= i2 < 512 && 0 <= j2 < 512 && l1_present(m1, t2, i2) implies #[trigger] l0_present(
        m2,
        t2,
        i2,
        j2,
    ) == l0_present(m1, t2, i2, j2) && l0_table(m2, t2, i2, j2) == l0_table(m1, t2, i2, j2) by {
        lemma_entry_after_write(m1, m2, t2, i, v, t2, i2);
        lemma_entry_after_write(m1, m2, t2, i, v, l1_table(m1, t2, i2), j2);
    }
    assert forall|i2: int, j2: int, l2: int|
        0 <= i2 < 512 && 0 <= j2 < 512 && 0 <= l2 < 512 implies #[trigger] translate(
        m2,
        t2,
        i2,
        j2,
        l2,
    ) == translate(m1, t2, i2, j2, l2) by {
        lemma_entry_after_write(m1, m2, t2, i, v, t2, i2);
        if l1_present(m1, t2, i2) {
            lemma_entry_after_write(m1, m2, t2, i, v, l1_table(m1, t2, i2), j2);
            if l0_present(m1, t2, i2, j2) {
                lemma_entry_after_write(m1, m2, t2, i, v, l0_table(m1, t2, i2, j2), l2);
            }
        }
    }
    assert forall|k2: u64| #[trigger] pt_view(m2, t2).dom().contains(k2) == pt_view(
        m1,
        t2,
    ).dom().contains(k2) && (pt_view(m2, t2).dom().contains(k2) ==> pt_view(m2, t2)[k2] == pt_view(
        m1,
        t2,
    )[k2]) by {
        lemma_key_indices(k2);
    }
    assert(pt_view(m2, t2) =~= pt_view(m1, t2));
    assert(l1_set(m2, t2) =~= l1_set(m1, t2).insert(i));
    assert(l0_set(m2, t2) =~= l0_set(m1, t2));
}

// ---------------------------------------------------------------------------
// Mapping a page
// ---------------------------------------------------------------------------

/// `m` with a zeroed page taken at its bump pointer.
pub open spec fn take_zero_page(m: MemView) -> MemView {
    MemView {
        base: m.base,
        bytes: Seq::new(
            m.bytes.len(),
            |k: int|
                if m.next - m.base <= k < m.next + 4096 - m.base {
                    0u8
                } else {
                    m.bytes[k]
                },
        ),
        next: m.next + 4096,
    }
}

/// `m` with the word `v` stored at physical address `a`.
pub open spec fn put_word(m: MemView, a: int, v: u64) -> MemView {
    MemView { base: m.base, bytes: store_u64(m.bytes, a - m.base, v), next: m.next }
}

/// `m` after slot `i` of the table at `t` is made to point to a next-level
/// table: unchanged when the slot is valid, otherwise a zero page is taken at
/// the bump pointer and the slot links to it.
pub open spec fn linked(m: MemView, t: int, i: int) -> MemView {
    if pte_valid(entry(m, t, i)) {
        m
    } else {
        put_word(take_zero_page(m), t + 8 * i, table_pte(m.next as u64))
    }
}

/// Memory after `vaddr` is mapped to `paddr` with `flags` in the table rooted
/// at `t2`: the root slot and then the level-1 slot are linked as `linked`
/// says, and the leaf slot of the level-0 table gets `leaf_pte(paddr, flags)`.
pub open spec fn mapped_memory(m: MemView, t2: int, vaddr: u64, paddr: u64, flags: u64) -> MemView {
    let m1 = linked(m, t2, vpn2(vaddr) as int);
    let m2 = linked(m1, l1_table(m1, t2, vpn2(vaddr) as int), vpn1(vaddr) as int);
    put_word(
        m2,
        l0_table(m2, t2, vpn2(vaddr) as int, vpn1(vaddr) as int) + 8 * vpn0(vaddr),
        leaf_pte(paddr, flags),
    )
}

/// Makes root slot `vpn2` of the table at `table2` point to a level-1 table,
/// allocating a zeroed one when the slot is empty.
fn link_l1(mem: &mut PhysMem, table2: u64, vpn2: u64)
    requires
        old(mem)@.wf(),
        pt_wf(old(mem)@, table2 as int),
        vpn2 < 512,
        l1_present(old(mem)@, table2 as int, vpn2 as int) || old(mem)@.next + 4096 <= old(mem)@.end(),
    ensures
        final(mem)@.wf(),
        pt_wf(final(mem)@, table2 as int),
        l1_present(final(mem)@, table2 as int, vpn2 as int),
        pt_view(final(mem)@, table2 as int) == pt_view(old(mem)@, table2 as int),
        l1_set(final(mem)@, table2 as int) == l1_set(old(mem)@, table2 as int).insert(vpn2 as int),
        l0_set(final(mem)@, table2 as int) == l0_set(old(mem)@, table2 as int),
        final(mem)@.base == old(mem)@.base,
        final(mem)@.bytes.len() == old(mem)@.bytes.len(),
        final(mem)@ == linked(old(mem)@, table2 as int, vpn2 as int),
        l1_present(old(mem)@, table2 as int, vpn2 as int) ==> final(mem)@ == old(mem)@,
        !l1_present(old(mem)@, table2 as int, vpn2 as int) ==> final(mem)@.next == old(mem)@.next + 4096,
        !l1_present(old(mem)@, table2 as int, vpn2 as int) ==> forall|j: int|
            0 <= j < 512 ==> !#[trigger] l0_present(final(mem)@, table2 as int, vpn2 as int, j),
        forall|lo: int, hi: int|
            #[trigger] pt_avoids(old(mem)@, table2 as int, lo, hi) && hi <= old(mem)@.next ==> pt_avoids(
                final(mem)@,
                table2 as int,
                lo,
                hi,
            ) && MemView::agree_on(old(mem)@, final(mem)@, lo, hi),
{
    let ghost t2 = table2 as int;
    let ghost m0 = mem@;
    let slot2: u64 = table2 + 8 * vpn2;
    let e2: u64 = mem.read_u64(slot2);
    proof {
        if l1_present(m0, t2, vpn2 as int) {
            assert(l1_set(m0, t2).insert(vpn2 as int) =~= l1_set(m0, t2));
        }
    }
    if e2 & PAGE_V == 0 {
        let pt_addr: u64 = alloc_pages(mem, 1);
        let ghost mb = mem@;
        proof {
            assert(MemView::agree_below(m0, mb, m0.next));
            lemma_pt_frame(m0, mb, t2, m0.next);
            assert(page_zero(mb, pt_addr as int));
        }
        mem.write_u64(slot2, ((pt_addr / 4096u64) << 10u64) | PAGE_V);
        proof {
            assert(mb.bytes =~= take_zero_page(m0).bytes);
            assert(mem@.bytes =~= linked(m0, t2, vpn2 as int).bytes);
            lemma_attach_l1(mb, mem@, t2, vpn2 as int, pt_addr as int);
            assert forall|lo: int, hi: int| #[trigger] pt_avoids(m0, t2, lo, hi) && hi <= m0.next
                implies pt_avoids(mem@, t2, lo, hi) && MemView::agree_on(m0, mem@, lo, hi) by {
                lemma_write_agree(mb, mem@, slot2 as int, table_pte(pt_addr), lo, hi);
            }
        }
    }
}

/// Makes slot `vpn1` of the level-1 table under root slot `vpn2` point to a
/// level-0 table, allocating a zeroed one when the slot is empty.
fn link_l0(mem: &mut PhysMem, table2: u64, vpn2: u64, vpn1: u64)
    requires
        old(mem)@.wf(),
        pt_wf(old(mem)@, table2 as int),
        vpn2 < 512,
        vpn1 < 512,
        l1_present(old(mem)@, table2 as int, vpn2 as int),
        l0_present(old(mem)@, table2 as int, vpn2 as int, vpn1 as int) || old(mem)@.next + 4096
            <= old(mem)@.end(),
    ensures
        final(mem)@.wf(),
        pt_wf(final(mem)@, table2 as int),
        l0_present(final(mem)@, table2 as int, vpn2 as int, vpn1 as int),
        pt_view(final(mem)@, table2 as int) == pt_view(old(mem)@, table2 as int),
        l1_set(final(mem)@, table2 as int) == l1_set(old(mem)@, table2 as int),
        l0_set(final(mem)@, table2 as int) == l0_set(old(mem)@, table2 as int).insert(
            (vpn2 as int, vpn1 as int),
        ),
        final(mem)@.base == old(mem)@.base,
        final(mem)@.bytes.len() == old(mem)@.bytes.len(),
        final(mem)@ == linked(
            old(mem)@,
            l1_table(old(mem)@, table2 as int, vpn2 as int),
            vpn1 as int,
        ),
        l0_present(old(mem)@, table2 as int, vpn2 as int, vpn1 as int) ==> final(mem)@ == old(mem)@,
        !l0_present(old(mem)@, table2 as int, vpn2 as int, vpn1 as int) ==> final(mem)@.next == old(
            mem,
        )@.next + 4096,
        forall|lo: int, hi: int|
            #[trigger] pt_avoids(old(mem)@, table2 as int, lo, hi) && hi <= old(mem)@.next ==> pt_avoids(
                final(mem)@,
                table2 as int,
                lo,
                hi,
            ) && MemView::agree_on(old(mem)@, final(mem)@, lo, hi),
{
    let ghost t2 = table2 as int;
    let ghost m0 = mem@;
    let e2: u64 = mem.read_u64(table2 + 8 * vpn2);
    let table1: u64 = (e2 << 2u64) & !0xfffu64;
    let slot1: u64 = table1 + 8 * vpn1;
    let e1: u64 = mem.read_u64(slot1);
    proof {
        if l0_present(m0, t2, vpn2 as int, vpn1 as int) {
            assert(l0_set(m0, t2).insert((vpn2 as int, vpn1 as int)) =~= l0_set(m0, t2));
        }
    }
    if e1 & PAGE_V == 0 {
        let pt_paddr: u64 = alloc_pages(mem, 1);
        let ghost mb = mem@;
        proof {
            assert(MemView::agree_below(m0, mb, m0.next));
            lemma_pt_frame(m0, mb, t2, m0.next);
            assert(page_zero(mb, pt_paddr as int));
        }
        mem.write_u64(slot1, ((pt_paddr / 4096u64) << 10u64) | PAGE_V);
        proof {
            assert(mb.bytes =~= take_zero_page(m0).bytes);
            assert(mem@.bytes =~= linked(m0, l1_table(m0, t2, vpn2 as int), vpn1 as int).bytes);
            lemma_attach_l0(mb, mem@, t2, vpn2 as int, vpn1 as int, pt_paddr as int);
            assert forall|lo: int, hi: int| #[trigger] pt_avoids(m0, t2, lo, hi) && hi <= m0.next
                implies pt_avoids(mem@, t2, lo, hi) && MemView::agree_on(m0, mem@, lo, hi) by {
                lemma_write_agree(mb, mem@, slot1 as int, table_pte(pt_paddr), lo, hi);
            }
        }
    }
}

/// Maps the 4 KiB page at virtual address `vaddr` to the physical page at `paddr`
/// in the Sv39 table rooted at `table2`, with the entry flags `flags | PAGE_V`.
/// Missing level-1 and level-0 tables are taken from the page allocator.
pub fn map_page(mem: &mut PhysMem, table2: u64, vaddr: u64, paddr: u64, flags: u64)
    requires
        old(mem)@.wf(),
        pt_wf(old(mem)@, table2 as int),
        vaddr % 4096 == 0,
        paddr % 4096 == 0,
        old(mem)@.next + 4096 * tables_needed(old(mem)@, table2 as int, vaddr) <= old(mem)@.end(),
    ensures
        final(mem)@.wf(),
        pt_wf(final(mem)@, table2 as int),
        pt_view(final(mem)@, table2 as int) == pt_view(old(mem)@, table2 as int).insert(
            vpn(vaddr),
            leaf_pte(paddr, flags),
        ),
        final(mem)@.base == old(mem)@.base,
        final(mem)@.bytes.len() == old(mem)@.bytes.len(),
        final(mem)@.next == old(mem)@.next + 4096 * tables_needed(old(mem)@, table2 as int, vaddr),
        final(mem)@ == mapped_memory(old(mem)@, table2 as int, vaddr, paddr, flags),
        tables_needed(old(mem)@, table2 as int, vaddr) == page_need(
            l1_set(old(mem)@, table2 as int),
            l0_set(old(mem)@, table2 as int),
            vaddr,
        ),
        l1_set(final(mem)@, table2 as int) == l1_set(old(mem)@, table2 as int).insert(
            vpn2(vaddr) as int,
        ),
        l0_set(final(mem)@, table2 as int) == l0_set(old(mem)@, table2 as int).insert(
            (vpn2(vaddr) as int, vpn1(vaddr) as int),
        ),
        forall|lo: int, hi: int|
            #[trigger] pt_avoids(old(mem)@, table2 as int, lo, hi) && hi <= old(mem)@.next ==> pt_avoids(
                final(mem)@,
                table2 as int,
                lo,
                hi,
            ) && MemView::agree_on(old(mem)@, final(mem)@, lo, hi),
{
    let ghost t2 = table2 as int;
    let ghost m0 = mem@;
    proof {
        lemma_vpn_indices(vaddr);
    }
    let vpn2: u64 = (vaddr >> 30u64) & 0x1ff;
    let vpn1: u64 = (vaddr >> 21u64) & 0x1ff;
    let vpn0: u64 = (vaddr >> 12u64) & 0x1ff;
    link_l1(mem, table2, vpn2);
    let ghost m1 = mem@;
    link_l0(mem, table2, vpn2, vpn1);
    let ghost m2 = mem@;
    assert(m2.next == m0.next + 4096 * tables_needed(m0, t2, vaddr));
    let e2: u64 = mem.read_u64(table2 + 8 * vpn2);
    let table1: u64 = (e2 << 2u64) & !0xfffu64;
    let e1: u64 = mem.read_u64(table1 + 8 * vpn1);
    let table0: u64 = (e1 << 2u64) & !0xfffu64;
    let slot0: u64 = table0 + 8 * vpn0;
    mem.write_u64(slot0, ((paddr / 4096u64) << 10u64) | flags | PAGE_V);
    proof {
        assert(mem@.bytes =~= mapped_memory(m0, t2, vaddr, paddr, flags).bytes);
        lemma_leaf_pte_valid(paddr, flags);
        lemma_write_leaf(m2, mem@, t2, vpn2 as int, vpn1 as int, vpn0 as int, leaf_pte(paddr, flags), vpn(vaddr));
        assert forall|lo: int, hi: int| #[trigger] pt_avoids(m0, t2, lo, hi) && hi <= m0.next
            implies pt_avoids(mem@, t2, lo, hi) && MemView::agree_on(m0, mem@, lo, hi) by {
            assert(pt_avoids(m1, t2, lo, hi));
            assert(pt_avoids(m2, t2, lo, hi));
            lemma_write_agree(m2, mem@, slot0 as int, leaf_pte(paddr, flags), lo, hi);
        }
    }
}

/// Number of table pages that mapping `vaddr` under `table2` would allocate.
pub fn tables_needed_for(mem: &PhysMem, table2: u64, vaddr: u64) -> (r: u64)
    requires
        mem@.wf(),
        pt_wf(mem@, table2 as int),
    ensures
        r == tables_needed(mem@, table2 as int, vaddr),
        r == page_need(l1_set(mem@, table2 as int), l0_set(mem@, table2 as int), vaddr),
{
    proof {
        lemma_tables_needed(mem@, table2 as int, vaddr);
        lemma_vpn_indices(vaddr);
    }
    let vpn2: u64 = (vaddr >> 30u64) & 0x1ff;
    let vpn1: u64 = (vaddr >> 21u64) & 0x1ff;
    let e2: u64 = mem.read_u64(table2 + 8 * vpn2);
    if e2 & PAGE_V == 0 {
        return 2;
    }
    assert(l1_present(mem@, table2 as int, vpn2 as int));
    let table1: u64 = (e2 << 2u64) & !0xfffu64;
    let e1: u64 = mem.read_u64(table1 + 8 * vpn1);
    if e1 & PAGE_V == 0 {
        1
    } else {
        0
    }
}

/// A freshly allocated zero page is a well-formed root with no mappings, and
/// it is the only page of its table.
pub proof fn lemma_fresh_table(m: MemView, t: int)
    requires
        m.wf(),
        table_ok(m, t),
        page_zero(m, t),
    ensures
        pt_wf(m, t),
        pt_view(m, t) == Map::<u64, u64>::empty(),
        l1_set(m, t) == Set::<int>::empty(),
        l0_set(m, t) == Set::<(int, int)>::empty(),
        forall|lo: int, hi: int| page_outside(t, lo, hi) ==> #[trigger] pt_avoids(m, t, lo, hi),
{
    lemma_zero_page_entries(m, t);
    assert forall|i: int| 0 <= i < 512 implies !#[trigger] l1_present(m, t, i) by {
        assert(!pte_valid(entry(m, t, i)));
    }
    assert(l1_set(m, t) =~= Set::<int>::empty());
    assert(l0_set(m, t) =~= Set::<(int, int)>::empty());
    assert(pt_view(m, t) =~= Map::<u64, u64>::empty()) by {
        assert forall|k: u64| !#[trigger] pt_view(m, t).dom().contains(k) by {
            lemma_key_indices(k);
            assert(!l1_present(m, t, key2(k)));
        }
    }
}

/// Address spaces are isolated: a change that leaves every byte below the
/// bump pointer alone, such as building a new process, keeps each existing
/// well-formed table and its mappings as they were.
pub proof fn lemma_space_isolation(m1: MemView, m2: MemView, t2: int)
    requires
        m1.wf(),
        pt_wf(m1, t2),
        MemView::agree_on(m1, m2, m1.base, m1.next),
        m2.next >= m1.next,
    ensures
        pt_wf(m2, t2),
        pt_view(m2, t2) == pt_view(m1, t2),
{
    assert(MemView::agree_below(m1, m2, m1.next));
    lemma_pt_frame(m1, m2, t2, m1.next);
}

/// The pages `map_page` allocates are those for the level-1 and level-0
/// tables that do not exist yet.
pub proof fn lemma_tables_needed(m: MemView, t2: int, va: u64)
    requires
        pt_wf(m, t2),
    ensures
        tables_needed(m, t2, va) == page_need(l1_set(m, t2), l0_set(m, t2), va),
{
    lemma_vpn_indices(va);
    let i = vpn2(va) as int;
    let j = vpn1(va) as int;
    assert(l1_set(m, t2).contains(i) == l1_present(m, t2, i));
    assert(l0_set(m, t2).contains((i, j)) == l0_present(m, t2, i, j));
}

} // verus!
