//! Page tables: one level of 512 entries, and the root of a multi-level
//! translation structure with its software walk and its mapping operation.
use core::marker::PhantomData;
use vstd::arithmetic::power2::{lemma2_to64, lemma2_to64_rest};
use vstd::prelude::*;

use crate::address::{pn_of, Address, Align1G, Align2M, Align4K, Align512G, aligned_to};
use crate::allocator::{frame_range, Frame, FrameAllocator};
use crate::entry::{
    leaf_entry, page_number_of, valid_entry, PageTableEntry, PageTableEntryFlags, FLAG_V,
};
use crate::mm_error::Error;
use crate::paging::{AlignSize, PageTableSpec};

verus! {

/// Number of entries of one page table.
pub const ENTRY_COUNT: usize = 512;

/// Bound on the physical page number of a table: the page-number field of
/// the translation-control value has 44 bits.
pub const TABLE_PPN_LIMIT: u64 = 0x1000_0000_0000;

/// Fields of the translation-control value: the root's page number, the
/// address-space id and the mode.
pub const SATP_PPN_MASK: u64 = 0x0000_0fff_ffff_ffff;
pub const SATP_ASID_MASK: u64 = 0x0fff_f000_0000_0000;
pub const SATP_MODE_MASK: u64 = 0xf000_0000_0000_0000;

/// The three fields of the translation-control value cover its 64 bits,
/// each bit exactly once.
pub proof fn lemma_satp_masks_partition()
    ensures
        SATP_PPN_MASK ^ SATP_ASID_MASK ^ SATP_MODE_MASK == u64::MAX,
        SATP_PPN_MASK | SATP_ASID_MASK | SATP_MODE_MASK == u64::MAX,
        SATP_PPN_MASK & SATP_ASID_MASK == 0 && SATP_ASID_MASK & SATP_MODE_MASK == 0,
{
    assert(0x0000_0fff_ffff_ffffu64 ^ 0x0fff_f000_0000_0000u64 ^ 0xf000_0000_0000_0000u64
        == 0xffff_ffff_ffff_ffffu64) by (bit_vector);
    assert(0x0000_0fff_ffff_ffffu64 | 0x0fff_f000_0000_0000u64 | 0xf000_0000_0000_0000u64
        == 0xffff_ffff_ffff_ffffu64) by (bit_vector);
    assert(0x0000_0fff_ffff_ffffu64 & 0x0fff_f000_0000_0000u64 == 0 && 0x0fff_f000_0000_0000u64
        & 0xf000_0000_0000_0000u64 == 0) by (bit_vector);
}

/// One level of the translation structure: 512 entries, stored in the
/// physical page `ppn`.
pub struct PageTable {
    ppn: usize,
    entries: Vec<PageTableEntry>,
}

impl PageTable {
    /// The page the table is stored in.
    pub closed spec fn spec_ppn(&self) -> usize {
        self.ppn
    }

    /// The entries, as the hardware reads them.
    pub closed spec fn spec_entries(&self) -> Seq<u64> {
        Seq::new(self.entries@.len(), |k: int| self.entries@[k]@)
    }

    /// A table of invalid entries stored in page `ppn`.
    pub fn zero_at(ppn: usize) -> (r: PageTable)
        ensures
            r.spec_ppn() == ppn,
            r.spec_entries() == Seq::new(512, |k: int| 0u64),
    {
        let mut entries: Vec<PageTableEntry> = Vec::new();
        let mut k: usize = 0;
        while k < ENTRY_COUNT
            invariant
                k <= 512,
                entries@.len() == k,
                forall|x: int| 0 <= x < k ==> #[trigger] entries@[x]@ == 0u64,
            decreases 512 - k,
        {
            entries.push(PageTableEntry::zero());
            k += 1;
        }
        let r = PageTable { ppn, entries };
        assert(r.spec_entries() =~= Seq::new(512, |k: int| 0u64));
        r
    }

    /// A table of invalid entries stored in page zero.
    pub fn zero() -> (r: PageTable)
        ensures
            r.spec_ppn() == 0,
            r.spec_entries() == Seq::new(512, |k: int| 0u64),
    {
        PageTable::zero_at(0)
    }

    /// The physical page number the table is stored in.
    pub fn ppn(&self) -> (r: usize)
        ensures
            r == self.spec_ppn(),
    {
        self.ppn
    }

    /// The entry at index `i`.
    pub fn entry(&self, i: usize) -> (r: PageTableEntry)
        requires
            i < self.spec_entries().len(),
        ensures
            r@ == self.spec_entries()[i as int],
    {
        self.entries[i]
    }

    fn set_entry(&mut self, i: usize, e: PageTableEntry)
        requires
            i < old(self).entries@.len(),
        ensures
            final(self).ppn == old(self).ppn,
            final(self).entries@ == old(self).entries@.update(i as int, e),
    {
        self.entries.set(i, e);
    }
}

/// The mask of the bits of an address that a leaf at `level` leaves
/// untranslated: the low `12 + 9 * level` bits.
pub open spec fn low_mask(level: nat) -> u64 {
    if level == 0 {
        0xfff
    } else if level == 1 {
        0x1f_ffff
    } else if level == 2 {
        0x3fff_ffff
    } else if level == 3 {
        0x7f_ffff_ffff
    } else {
        0xffff_ffff_ffff
    }
}

/// The physical address that the leaf `e` at `level` gives `va`: the
/// entry's page, with the untranslated low bits taken from `va`.
pub open spec fn leaf_target(e: u64, level: nat, va: usize) -> u64 {
    ((page_number_of(e) << 12) & !low_mask(level)) | ((va as u64) & low_mask(level))
}

/// The address that a mapping of physical address `pa` at `level` gives
/// `va`: the page-number bits of `pa` above the leaf's size, and the low bits
/// of `va`.
pub open spec fn mapped_target(pa: usize, level: nat, va: usize) -> u64 {
    ((pa as u64) & 0x01ff_ffff_ffff_f000 & !low_mask(level)) | ((va as u64) & low_mask(level))
}

/// A table whose page is `ppn` is among `ts`.
pub open spec fn has_table(ts: Seq<PageTable>, ppn: u64) -> bool {
    exists|j: int| 0 <= j < ts.len() && ts[j].spec_ppn() as u64 == ppn
}

/// The index of the table of page `ppn` among `ts`.
pub open spec fn table_index(ts: Seq<PageTable>, ppn: u64) -> int {
    choose|j: int| 0 <= j < ts.len() && ts[j].spec_ppn() as u64 == ppn
}

/// The entry at index `k` of table `i`.
pub open spec fn entry_at(ts: Seq<PageTable>, i: int, k: int) -> u64 {
    ts[i].spec_entries()[k]
}

/// What the hardware walker makes of `va`, starting from table `i` at
/// `level`: `None` where it meets an invalid entry, a pointer below level
/// zero, a page that holds no table, or a leaf above level zero whose page
/// is not aligned to the leaf's size; else the address its leaf gives.
pub open spec fn walk(ts: Seq<PageTable>, i: int, level: nat, va: usize) -> Option<u64>
    decreases level,
{
    let e = entry_at(ts, i, pn_of(va, level) as int);
    if !valid_entry(e) {
        None
    } else if leaf_entry(e) {
        if (page_number_of(e) << 12) & low_mask(level) != 0 {
            None
        } else {
            Some(leaf_target(e, level, va))
        }
    } else if level == 0 {
        None
    } else if !has_table(ts, page_number_of(e)) {
        None
    } else {
        walk(ts, table_index(ts, page_number_of(e)), (level - 1) as nat, va)
    }
}

/// Walking `va` from table `i` at level `l` passes through table `j` at
/// level `m`, each table on the way sitting at the level it is read at.
spec fn reaches(
    ts: Seq<PageTable>,
    lv: Seq<nat>,
    i: int,
    l: nat,
    j: int,
    m: nat,
    va: usize,
) -> bool
    decreases l - m,
{
    if l <= m {
        l == m && i == j
    } else {
        let e = entry_at(ts, i, pn_of(va, l) as int);
        &&& 0 <= i < ts.len()
        &&& lv[i] == l
        &&& valid_entry(e)
        &&& !leaf_entry(e)
        &&& has_table(ts, page_number_of(e))
        &&& reaches(ts, lv, table_index(ts, page_number_of(e)), (l - 1) as nat, j, m, va)
    }
}

/// No two tables share a page.
spec fn unique_pages(ts: Seq<PageTable>) -> bool {
    forall|a: int, b: int|
        0 <= a < ts.len() && 0 <= b < ts.len() && a != b ==> #[trigger] ts[a].ppn != #[trigger] ts[b].ppn
}

/// The entry at index `k` of table `i` points to a table below it.
spec fn is_pointer(ts: Seq<PageTable>, lv: Seq<nat>, i: int, k: int) -> bool {
    let e = entry_at(ts, i, k);
    valid_entry(e) && !leaf_entry(e) && lv[i] > 0
}

/// No two entries point to the same page: every table below the root has
/// one parent entry at most.
spec fn unique_targets(ts: Seq<PageTable>, lv: Seq<nat>) -> bool {
    forall|i1: int, k1: int, i2: int, k2: int|
        0 <= i1 < ts.len() && 0 <= k1 < 512 && 0 <= i2 < ts.len() && 0 <= k2 < 512
            && #[trigger] is_pointer(ts, lv, i1, k1) && #[trigger] is_pointer(ts, lv, i2, k2) && (i1
            != i2 || k1 != k2) ==> page_number_of(entry_at(ts, i1, k1)) != page_number_of(
            entry_at(ts, i2, k2),
        )
}

/// The entry at index `k` of table `i`, if a pointer above level zero, names
/// a table one level down.
spec fn linked(ts: Seq<PageTable>, lv: Seq<nat>, i: int, k: int) -> bool {
    let e = entry_at(ts, i, k);
    valid_entry(e) && !leaf_entry(e) && lv[i] > 0 ==> exists|j: int|
        0 <= j < ts.len() && ts[j].ppn as u64 == page_number_of(e) && lv[j] == lv[i] - 1
}

/// The root of the translation structure of scheme `S`, with the tables
/// below it. The root is the first table.
pub struct RootPageTable<S: PageTableSpec> {
    tables: Vec<PageTable>,
    frames: Vec<Frame>,
    levels: Ghost<Seq<nat>>,
    scheme: PhantomData<S>,
}


/// The page-number field of `a` at `level`, for the five levels an address
/// has.
fn pn_at(a: &Address, level: usize) -> (r: usize)
    requires
        level < 5,
    ensures
        r == pn_of(a@, level as nat),
        r < 512,
{
    if level == 0 {
        a.pn::<0>()
    } else if level == 1 {
        a.pn::<1>()
    } else if level == 2 {
        a.pn::<2>()
    } else if level == 3 {
        a.pn::<3>()
    } else {
        a.pn::<4>()
    }
}

/// The low bits that a leaf at `level` leaves untranslated.
fn mask_at(level: usize) -> (r: u64)
    requires
        level < 5,
    ensures
        r == low_mask(level as nat),
{
    if level == 0 {
        0xfff
    } else if level == 1 {
        0x1f_ffff
    } else if level == 2 {
        0x3fff_ffff
    } else if level == 3 {
        0x7f_ffff_ffff
    } else {
        0xffff_ffff_ffff
    }
}

/// The page of a physical address aligned to a leaf's size has no bits
/// below that size.
proof fn lemma_aligned_page(pa: usize, g: AlignSize)
    requires
        aligned_for(pa, g),
    ensures
        ((((pa as u64) >> 12) & 0x1fff_ffff_ffff) << 12) & low_mask(g.spec_level()) == 0,
{
    let x = pa as u64;
    assert(x as nat == pa as nat);
    match g {
        AlignSize::Page4K => {
            assert(x % 0x1000 == 0 ==> (((x >> 12) & 0x1fff_ffff_ffff) << 12) & 0xfff == 0)
                by (bit_vector);
        },
        AlignSize::Page2M => {
            assert(x % 0x20_0000 == 0 ==> (((x >> 12) & 0x1fff_ffff_ffff) << 12) & 0x1f_ffff == 0)
                by (bit_vector);
        },
        AlignSize::Page1G => {
            assert(x % 0x4000_0000 == 0 ==> (((x >> 12) & 0x1fff_ffff_ffff) << 12) & 0x3fff_ffff
                == 0) by (bit_vector);
        },
        AlignSize::Page512G => {
            assert(x % 0x80_0000_0000 == 0 ==> (((x >> 12) & 0x1fff_ffff_ffff) << 12)
                & 0x7f_ffff_ffff == 0) by (bit_vector);
        },
    }
}

/// The entry that the walk of `va` from table `i` at level `l` reads at
/// level `t`, if it gets that far.
pub open spec fn slot(ts: Seq<PageTable>, i: int, l: nat, va: usize, t: nat) -> Option<u64>
    decreases l,
{
    let e = entry_at(ts, i, pn_of(va, l) as int);
    if l <= t {
        Some(e)
    } else if valid_entry(e) && !leaf_entry(e) && has_table(ts, page_number_of(e)) {
        slot(ts, table_index(ts, page_number_of(e)), (l - 1) as nat, va, t)
    } else {
        None
    }
}

/// The walk of `va` from table `i` at level `l` meets a valid leaf above
/// level `t`.
pub open spec fn leaf_above(ts: Seq<PageTable>, i: int, l: nat, va: usize, t: nat) -> bool
    decreases l,
{
    let e = entry_at(ts, i, pn_of(va, l) as int);
    if l <= t {
        false
    } else if !valid_entry(e) {
        false
    } else if leaf_entry(e) {
        true
    } else if !has_table(ts, page_number_of(e)) {
        false
    } else {
        leaf_above(ts, table_index(ts, page_number_of(e)), (l - 1) as nat, va, t)
    }
}

/// The leaf entry that maps to physical address `pa` with `flags`: the page
/// number of `pa` from bit 10, the flags in the low byte.
pub open spec fn leaf_bits(pa: usize, flags: u8) -> u64 {
    ((((pa as u64) >> 12) & 0x1fff_ffff_ffff) << 10) | (flags as u64)
}

/// A walk that passes through table `j` at level `m` reads there the entry
/// of `j` for `va`.
proof fn lemma_reach_slot(
    ts: Seq<PageTable>,
    lv: Seq<nat>,
    i: int,
    l: nat,
    j: int,
    m: nat,
    va: usize,
)
    requires
        reaches(ts, lv, i, l, j, m, va),
    ensures
        slot(ts, i, l, va, m) == Some(entry_at(ts, j, pn_of(va, m) as int)),
    decreases l - m,
{
    if l > m {
        let e = entry_at(ts, i, pn_of(va, l) as int);
        lemma_reach_slot(ts, lv, table_index(ts, page_number_of(e)), (l - 1) as nat, j, m, va);
    }
}

/// The 4KiB-aligned pages that lie wholly in `free`.
pub open spec fn free_pages(free: Set<int>) -> Set<int> {
    Set::new(|s: int| s % 4096 == 0 && frame_range(s, s + 4096).subset_of(free))
}

/// Every address of `free` lies in a page that the tables `ts` could use for
/// a new table: one below the page-number limit that holds no table yet.
pub open spec fn pages_usable(ts: Seq<PageTable>, free: Set<int>) -> bool {
    forall|a: int|
        #[trigger] free.contains(a) ==> 0 <= a < TABLE_PPN_LIMIT * 4096 && !has_table(
            ts,
            (a / 4096) as u64,
        )
}

/// Two distinct multiples of 4096 are at least 4096 apart.
proof fn lemma_pages_apart(x: int, a: int)
    requires
        x % 4096 == 0,
        a % 4096 == 0,
        x != a,
    ensures
        x + 4096 <= a || a + 4096 <= x,
{
    vstd::arithmetic::div_mod::lemma_fundamental_div_mod(x, 4096);
    vstd::arithmetic::div_mod::lemma_fundamental_div_mod(a, 4096);
    let qx = x / 4096;
    let qa = a / 4096;
    assert(qx != qa);
    assert(x + 4096 <= a || a + 4096 <= x) by (nonlinear_arith)
        requires
            x == 4096 * qx,
            a == 4096 * qa,
            qx != qa,
    ;
}

/// Finitely many free addresses hold finitely many free pages; with any
/// free page there is one to name.
proof fn lemma_free_pages_finite(free: Set<int>)
    requires
        free.finite(),
    ensures
        free_pages(free).finite(),
        free_pages(free).len() != 0 ==> exists|c: int| free_pages(free).contains(c),
{
    assert forall|x: int| free_pages(free).contains(x) implies free.contains(x) by {
        assert(frame_range(x, x + 4096).contains(x));
    }
    vstd::set_lib::lemma_len_subset(free_pages(free), free);
    vstd::set_lib::lemma_set_empty_equivalency_len(free_pages(free));
}

/// Taking the page at `a` out of `free` takes exactly that page out of the
/// free pages, and leaves the others' addresses in other pages.
proof fn lemma_take_page(free: Set<int>, a: int)
    requires
        free.finite(),
        free_pages(free).contains(a),
    ensures
        free_pages(free.difference(frame_range(a, a + 4096))) == free_pages(free).remove(a),
        free_pages(free).finite(),
        free_pages(free.difference(frame_range(a, a + 4096))).len() == free_pages(free).len() - 1,
        forall|b: int| #[trigger] free.difference(frame_range(a, a + 4096)).contains(b) ==> b / 4096 != a / 4096,
{
    let f2 = free.difference(frame_range(a, a + 4096));
    assert forall|x: int| free_pages(f2).contains(x) <==> free_pages(free).remove(a).contains(x) by {
        if x % 4096 == 0 && x != a && free_pages(free).contains(x) {
            lemma_pages_apart(x, a);
            assert(frame_range(x, x + 4096).subset_of(f2));
        }
        if free_pages(f2).contains(x) {
            assert(f2.contains(x));
        }
    }
    assert(free_pages(f2) =~= free_pages(free).remove(a));
    assert forall|x: int| free_pages(free).contains(x) implies free.contains(x) by {
        assert(frame_range(x, x + 4096).contains(x));
    }
    vstd::set_lib::lemma_len_subset(free_pages(free), free);
    assert forall|b: int| #[trigger] f2.contains(b) implies b / 4096 != a / 4096 by {
        vstd::arithmetic::div_mod::lemma_fundamental_div_mod(a, 4096);
        vstd::arithmetic::div_mod::lemma_fundamental_div_mod(b, 4096);
        if b / 4096 == a / 4096 {
            assert(frame_range(a, a + 4096).contains(b));
        }
    }
}

/// A walk that reaches table `j` at level `m` goes on from there as a
/// walk started at `j` would.
proof fn lemma_reach_walk(
    ts: Seq<PageTable>,
    lv: Seq<nat>,
    i: int,
    l: nat,
    j: int,
    m: nat,
    va: usize,
)
    requires
        reaches(ts, lv, i, l, j, m, va),
    ensures
        walk(ts, i, l, va) == walk(ts, j, m, va),
    decreases l - m,
{
    if l > m {
        let e = entry_at(ts, i, pn_of(va, l) as int);
        lemma_reach_walk(ts, lv, table_index(ts, page_number_of(e)), (l - 1) as nat, j, m, va);
    }
}

/// A walk that reaches table `j` at level `m`, where a pointer leads on to
/// table `k`, reaches `k` at level `m - 1`.
proof fn lemma_reach_extend(
    ts: Seq<PageTable>,
    lv: Seq<nat>,
    i: int,
    l: nat,
    j: int,
    m: nat,
    va: usize,
    k: int,
)
    requires
        reaches(ts, lv, i, l, j, m, va),
        m >= 1,
        0 <= j < ts.len(),
        lv[j] == m,
        valid_entry(entry_at(ts, j, pn_of(va, m) as int)),
        !leaf_entry(entry_at(ts, j, pn_of(va, m) as int)),
        has_table(ts, page_number_of(entry_at(ts, j, pn_of(va, m) as int))),
        k == table_index(ts, page_number_of(entry_at(ts, j, pn_of(va, m) as int))),
    ensures
        reaches(ts, lv, i, l, k, (m - 1) as nat, va),
    decreases l - m,
{
    if l == m {
        assert(reaches(ts, lv, k, (m - 1) as nat, k, (m - 1) as nat, va));
    } else {
        let e = entry_at(ts, i, pn_of(va, l) as int);
        lemma_reach_extend(ts, lv, table_index(ts, page_number_of(e)), (l - 1) as nat, j, m, va, k);
    }
}

/// `va` and `vb` have the same page-number fields at levels `lo` to `hi`.
pub open spec fn same_fields(va: usize, vb: usize, lo: nat, hi: nat) -> bool {
    forall|l: nat| lo <= l <= hi ==> pn_of(va, l) == pn_of(vb, l)
}

/// Walks of two addresses that agree on the fields read above level `m`
/// pass through the same tables.
proof fn lemma_reach_same_fields(
    ts: Seq<PageTable>,
    lv: Seq<nat>,
    i: int,
    l: nat,
    j: int,
    m: nat,
    va: usize,
    vb: usize,
)
    requires
        reaches(ts, lv, i, l, j, m, va),
        same_fields(va, vb, m + 1, l),
    ensures
        reaches(ts, lv, i, l, j, m, vb),
    decreases l - m,
{
    if l > m {
        assert(pn_of(va, l) == pn_of(vb, l));
        let e = entry_at(ts, i, pn_of(va, l) as int);
        lemma_reach_same_fields(ts, lv, table_index(ts, page_number_of(e)), (l - 1) as nat, j, m, va, vb);
    }
}

/// Tables `ts2` agree with `ts` where a walk above level `m` reads them:
/// `ts2` keeps every table of `ts` in place with its page and level, and the
/// entries of those above level `m`; its pages are all distinct.
spec fn agrees_above(ts: Seq<PageTable>, lv: Seq<nat>, ts2: Seq<PageTable>, lv2: Seq<nat>, m: nat) -> bool {
    &&& ts.len() <= ts2.len()
    &&& lv.len() == ts.len()
    &&& lv2.len() == ts2.len()
    &&& unique_pages(ts2)
    &&& forall|x: int|
        0 <= x < ts.len() ==> {
            &&& (#[trigger] ts2[x]).ppn == ts[x].ppn
            &&& lv2[x] == lv[x]
            &&& lv[x] > m ==> ts2[x].entries@ == ts[x].entries@
        }
}

/// A walk that reaches table `j` at level `m` does so in any tables that
/// agree with these above level `m`.
proof fn lemma_reach_frame(
    ts: Seq<PageTable>,
    lv: Seq<nat>,
    ts2: Seq<PageTable>,
    lv2: Seq<nat>,
    i: int,
    l: nat,
    j: int,
    m: nat,
    va: usize,
)
    requires
        reaches(ts, lv, i, l, j, m, va),
        agrees_above(ts, lv, ts2, lv2, m),
    ensures
        reaches(ts2, lv2, i, l, j, m, va),
    decreases l - m,
{
    if l > m {
        let e = entry_at(ts, i, pn_of(va, l) as int);
        let p = page_number_of(e);
        let w = table_index(ts, p);
        assert(entry_at(ts2, i, pn_of(va, l) as int) == e);
        assert(has_table(ts, p));
        assert(0 <= w < ts.len() && ts[w].ppn as u64 == p);
        assert(ts2[w].ppn == ts[w].ppn);
        assert(has_table(ts2, p));
        lemma_index_of(ts2, p, w);
        lemma_reach_frame(ts, lv, ts2, lv2, w, (l - 1) as nat, j, m, va);
    }
}

/// Pointers above level zero that name a table one level down keep doing
/// so when tables are added after the existing ones.
proof fn lemma_linked_append(ts: Seq<PageTable>, lv: Seq<nat>, ts2: Seq<PageTable>, lv2: Seq<nat>, i: int, k: int)
    requires
        linked(ts, lv, i, k),
        0 <= i < ts.len(),
        ts.len() <= ts2.len(),
        lv.len() == ts.len(),
        lv2.len() == ts2.len(),
        forall|x: int| 0 <= x < ts.len() ==> #[trigger] ts2[x] == ts[x] && lv2[x] == lv[x],
    ensures
        linked(ts2, lv2, i, k),
{
    let e = entry_at(ts, i, k);
    assert(ts2[i] == ts[i]);
    if valid_entry(e) && !leaf_entry(e) && lv[i] > 0 {
        let j = choose|j: int|
            0 <= j < ts.len() && ts[j].ppn as u64 == page_number_of(e) && lv[j] == lv[i] - 1;
        assert(ts2[j] == ts[j]);
    }
}

/// An entry whose value is kept stays linked when only entries change and
/// every table keeps its page.
proof fn lemma_linked_update(ts: Seq<PageTable>, lv: Seq<nat>, ts2: Seq<PageTable>, i: int, k: int)
    requires
        linked(ts, lv, i, k),
        0 <= i < ts.len(),
        ts2.len() == ts.len(),
        forall|x: int| 0 <= x < ts.len() ==> (#[trigger] ts2[x]).ppn == ts[x].ppn,
        entry_at(ts2, i, k) == entry_at(ts, i, k),
    ensures
        linked(ts2, lv, i, k),
{
    let e = entry_at(ts, i, k);
    if valid_entry(e) && !leaf_entry(e) && lv[i] > 0 {
        let j = choose|j: int|
            0 <= j < ts.len() && ts[j].ppn as u64 == page_number_of(e) && lv[j] == lv[i] - 1;
        assert(ts2[j].ppn == ts[j].ppn);
    }
}

/// `a` is a multiple of the size of a leaf of granularity `g`.
pub open spec fn aligned_for(a: usize, g: AlignSize) -> bool {
    (a as nat) % g.spec_bytes() == 0
}

/// Whether `a` is a multiple of the size of a leaf of granularity `g`.
fn is_aligned_for(a: &Address, g: AlignSize) -> (r: bool)
    ensures
        r == aligned_for(a@, g),
{
    proof {
        lemma2_to64();
        lemma2_to64_rest();
    }
    match g {
        AlignSize::Page4K => a.is_aligned::<Align4K>(),
        AlignSize::Page2M => a.is_aligned::<Align2M>(),
        AlignSize::Page1G => a.is_aligned::<Align1G>(),
        AlignSize::Page512G => a.is_aligned::<Align512G>(),
    }
}

/// Adding a table of invalid entries adds no pointer.
proof fn lemma_targets_append(ts: Seq<PageTable>, lv: Seq<nat>, ts1: Seq<PageTable>, lv1: Seq<nat>)
    requires
        unique_targets(ts, lv),
        lv.len() == ts.len(),
        ts1.len() == ts.len() + 1,
        lv1.len() == ts1.len(),
        forall|x: int| 0 <= x < ts.len() ==> #[trigger] ts1[x] == ts[x] && lv1[x] == lv[x],
        forall|k: int| 0 <= k < 512 ==> !valid_entry(#[trigger] entry_at(ts1, ts.len() as int, k)),
    ensures
        unique_targets(ts1, lv1),
{
    assert forall|i1: int, k1: int, i2: int, k2: int|
        0 <= i1 < ts1.len() && 0 <= k1 < 512 && 0 <= i2 < ts1.len() && 0 <= k2 < 512
            && #[trigger] is_pointer(ts1, lv1, i1, k1) && #[trigger] is_pointer(ts1, lv1, i2, k2)
            && (i1 != i2 || k1 != k2) implies page_number_of(entry_at(ts1, i1, k1)) != page_number_of(
        entry_at(ts1, i2, k2),
    ) by {
        if i1 < ts.len() && i2 < ts.len() {
            assert(ts1[i1] == ts[i1] && ts1[i2] == ts[i2]);
            assert(is_pointer(ts, lv, i1, k1) && is_pointer(ts, lv, i2, k2));
        } else if i1 == ts.len() {
            assert(!valid_entry(entry_at(ts1, ts.len() as int, k1)));
        } else {
            assert(!valid_entry(entry_at(ts1, ts.len() as int, k2)));
        }
    }
}

/// Writing entry `idx` of table `cur` keeps pointers unique when the entry
/// written is no pointer, or when it was none and no pointer names its page.
proof fn lemma_targets_write(
    ts: Seq<PageTable>,
    lv: Seq<nat>,
    ts2: Seq<PageTable>,
    cur: int,
    idx: int,
)
    requires
        unique_targets(ts, lv),
        lv.len() == ts.len(),
        ts2.len() == ts.len(),
        0 <= cur < ts.len(),
        0 <= idx < 512,
        forall|i: int, k: int|
            0 <= i < ts.len() && 0 <= k < 512 && (i != cur || k != idx) ==> #[trigger] entry_at(
                ts2,
                i,
                k,
            ) == entry_at(ts, i, k),
        !is_pointer(ts2, lv, cur, idx) || (!is_pointer(ts, lv, cur, idx) && forall|i: int, k: int|
            0 <= i < ts.len() && 0 <= k < 512 && #[trigger] is_pointer(ts, lv, i, k)
                ==> page_number_of(entry_at(ts, i, k)) != page_number_of(entry_at(ts2, cur, idx))),
    ensures
        unique_targets(ts2, lv),
{
    assert forall|i1: int, k1: int, i2: int, k2: int|
        0 <= i1 < ts2.len() && 0 <= k1 < 512 && 0 <= i2 < ts2.len() && 0 <= k2 < 512
            && #[trigger] is_pointer(ts2, lv, i1, k1) && #[trigger] is_pointer(ts2, lv, i2, k2)
            && (i1 != i2 || k1 != k2) implies page_number_of(entry_at(ts2, i1, k1)) != page_number_of(
        entry_at(ts2, i2, k2),
    ) by {
        if (i1 != cur || k1 != idx) && (i2 != cur || k2 != idx) {
            assert(entry_at(ts2, i1, k1) == entry_at(ts, i1, k1));
            assert(entry_at(ts2, i2, k2) == entry_at(ts, i2, k2));
            assert(is_pointer(ts, lv, i1, k1) && is_pointer(ts, lv, i2, k2));
        } else if i1 == cur && k1 == idx {
            assert(entry_at(ts2, i2, k2) == entry_at(ts, i2, k2));
            assert(is_pointer(ts, lv, i2, k2));
        } else {
            assert(entry_at(ts2, i1, k1) == entry_at(ts, i1, k1));
            assert(is_pointer(ts, lv, i1, k1));
        }
    }
}

/// Pages are unique among `ts` when they are among a longer sequence that
/// starts with the same tables.
proof fn lemma_unique_prefix(ts: Seq<PageTable>, ts2: Seq<PageTable>)
    requires
        unique_pages(ts2),
        ts.len() <= ts2.len(),
        forall|x: int| 0 <= x < ts.len() ==> (#[trigger] ts2[x]).ppn == ts[x].ppn,
    ensures
        unique_pages(ts),
{
    assert forall|a: int, b: int|
        0 <= a < ts.len() && 0 <= b < ts.len() && a != b implies #[trigger] ts[a].ppn
        != #[trigger] ts[b].ppn by {
        assert(ts2[a].ppn != ts2[b].ppn);
    }
}

/// The table of page `p`, when unique pages hold, is any table whose page
/// is `p`.
proof fn lemma_index_of(ts: Seq<PageTable>, p: u64, j: int)
    requires
        unique_pages(ts),
        0 <= j < ts.len(),
        ts[j].ppn as u64 == p,
    ensures
        has_table(ts, p),
        table_index(ts, p) == j,
{
    assert(has_table(ts, p));
    let w = table_index(ts, p);
    if w != j {
        assert(ts[w].ppn != ts[j].ppn);
    }
}

/// Turning the invalid entry `idx` of table `cur` into a pointer to a new
/// table of invalid entries changes no walk: where the old walk met the
/// invalid entry, the new one meets an invalid entry one level down.
proof fn lemma_walk_grow(
    ts: Seq<PageTable>,
    lv: Seq<nat>,
    ts2: Seq<PageTable>,
    cur: int,
    idx: int,
    i: int,
    l: nat,
    va: usize,
)
    requires
        forall|x: int, k: int| 0 <= x < ts.len() && 0 <= k < 512 ==> #[trigger] linked(ts, lv, x, k),
        forall|x: int| 0 <= x < ts.len() ==> (#[trigger] ts[x]).entries@.len() == 512,
        lv.len() == ts.len(),
        unique_pages(ts2),
        ts2.len() == ts.len() + 1,
        0 <= cur < ts.len(),
        0 <= idx < 512,
        lv[cur] > 0,
        !valid_entry(entry_at(ts, cur, idx)),
        forall|x: int| 0 <= x < ts.len() ==> (#[trigger] ts2[x]).ppn == ts[x].ppn,
        forall|x: int, k: int|
            0 <= x < ts.len() && 0 <= k < 512 && (x != cur || k != idx) ==> #[trigger] entry_at(
                ts2,
                x,
                k,
            ) == entry_at(ts, x, k),
        valid_entry(entry_at(ts2, cur, idx)),
        !leaf_entry(entry_at(ts2, cur, idx)),
        page_number_of(entry_at(ts2, cur, idx)) == ts2[ts.len() as int].ppn as u64,
        forall|k: int| 0 <= k < 512 ==> !valid_entry(#[trigger] entry_at(ts2, ts.len() as int, k)),
        0 <= i < ts.len(),
        lv[i] == l,
    ensures
        walk(ts2, i, l, va) == walk(ts, i, l, va),
    decreases l,
{
    let k = pn_of(va, l) as int;
    crate::entry::lemma_nine_bits((va as u64) >> (12 + 9 * l) as u64);
    let e = entry_at(ts, i, k);
    if i == cur && k == idx {
        let n = ts.len() as int;
        let p = page_number_of(entry_at(ts2, cur, idx));
        lemma_index_of(ts2, p, n);
        let kn = pn_of(va, (l - 1) as nat) as int;
        crate::entry::lemma_nine_bits((va as u64) >> (12 + 9 * (l - 1)) as u64);
        assert(!valid_entry(entry_at(ts2, n, kn)));
        assert(walk(ts2, n, (l - 1) as nat, va) is None);
        assert(walk(ts2, i, l, va) == walk(ts2, n, (l - 1) as nat, va));
    } else {
        assert(entry_at(ts2, i, k) == e);
        if valid_entry(e) && !leaf_entry(e) && l > 0 {
            assert(linked(ts, lv, i, k));
            let j = choose|j: int|
                0 <= j < ts.len() && ts[j].ppn as u64 == page_number_of(e) && lv[j] == lv[i] - 1;
            lemma_unique_prefix(ts, ts2);
            lemma_index_of(ts, page_number_of(e), j);
            lemma_index_of(ts2, page_number_of(e), j);
            lemma_walk_grow(ts, lv, ts2, cur, idx, j, (l - 1) as nat, va);
        }
    }
}

/// Writing entry `idx` of table `cur`, at level `t`, changes no walk that
/// does not read that entry.
proof fn lemma_walk_write(
    ts: Seq<PageTable>,
    lv: Seq<nat>,
    ts2: Seq<PageTable>,
    cur: int,
    idx: int,
    t: nat,
    i: int,
    l: nat,
    va: usize,
)
    requires
        forall|x: int, k: int| 0 <= x < ts.len() && 0 <= k < 512 ==> #[trigger] linked(ts, lv, x, k),
        lv.len() == ts.len(),
        unique_pages(ts),
        ts2.len() == ts.len(),
        0 <= cur < ts.len(),
        lv[cur] == t,
        forall|x: int| 0 <= x < ts.len() ==> (#[trigger] ts2[x]).ppn == ts[x].ppn,
        forall|x: int, k: int|
            0 <= x < ts.len() && 0 <= k < 512 && (x != cur || k != idx) ==> #[trigger] entry_at(
                ts2,
                x,
                k,
            ) == entry_at(ts, x, k),
        0 <= i < ts.len(),
        lv[i] == l,
        !(reaches(ts, lv, i, l, cur, t, va) && pn_of(va, t) == idx),
    ensures
        walk(ts2, i, l, va) == walk(ts, i, l, va),
    decreases l,
{
    let k = pn_of(va, l) as int;
    crate::entry::lemma_nine_bits((va as u64) >> (12 + 9 * l) as u64);
    let e = entry_at(ts, i, k);
    if i == cur && k == idx {
        assert(reaches(ts, lv, i, l, cur, t, va));
    }
    assert(entry_at(ts2, i, k) == e);
    if valid_entry(e) && !leaf_entry(e) && l > 0 {
        assert(linked(ts, lv, i, k));
        let j = choose|j: int|
            0 <= j < ts.len() && ts[j].ppn as u64 == page_number_of(e) && lv[j] == lv[i] - 1;
        assert(unique_pages(ts2)) by {
            assert forall|a: int, b: int|
                0 <= a < ts2.len() && 0 <= b < ts2.len() && a != b implies #[trigger] ts2[a].ppn
                != #[trigger] ts2[b].ppn by {
                assert(ts[a].ppn != ts[b].ppn);
            }
        }
        lemma_index_of(ts, page_number_of(e), j);
        lemma_index_of(ts2, page_number_of(e), j);
        lemma_walk_write(ts, lv, ts2, cur, idx, t, j, (l - 1) as nat, va);
    }
}

/// Two walks that reach the same table from tables at the same level start
/// from the same table and read the same fields on the way: each table has
/// one parent entry at most.
proof fn lemma_reach_unique(
    ts: Seq<PageTable>,
    lv: Seq<nat>,
    i1: int,
    i2: int,
    l: nat,
    j: int,
    m: nat,
    va: usize,
    vb: usize,
)
    requires
        reaches(ts, lv, i1, l, j, m, va),
        reaches(ts, lv, i2, l, j, m, vb),
        unique_targets(ts, lv),
        unique_pages(ts),
    ensures
        i1 == i2,
        same_fields(va, vb, m + 1, l),
    decreases l - m,
{
    if l > m {
        let ka = pn_of(va, l) as int;
        let kb = pn_of(vb, l) as int;
        crate::entry::lemma_nine_bits((va as u64) >> (12 + 9 * l) as u64);
        crate::entry::lemma_nine_bits((vb as u64) >> (12 + 9 * l) as u64);
        let ea = entry_at(ts, i1, ka);
        let eb = entry_at(ts, i2, kb);
        let na = table_index(ts, page_number_of(ea));
        let nb = table_index(ts, page_number_of(eb));
        lemma_reach_unique(ts, lv, na, nb, (l - 1) as nat, j, m, va, vb);
        assert(is_pointer(ts, lv, i1, ka));
        assert(is_pointer(ts, lv, i2, kb));
        assert(page_number_of(ea) == page_number_of(eb));
        assert(i1 == i2 && ka == kb);
        assert forall|x: nat| m + 1 <= x <= l implies pn_of(va, x) == pn_of(vb, x) by {
            if x < l {
                assert(same_fields(va, vb, m + 1, (l - 1) as nat));
            }
        }
    }
}

impl<S: PageTableSpec> RootPageTable<S> {
    /// The tables, the root first.
    pub closed spec fn spec_tables(&self) -> Seq<PageTable> {
        self.tables@
    }

    /// The page the root table is stored in.
    pub closed spec fn spec_ppn(&self) -> usize {
        self.tables@[0].ppn
    }

    /// The tables are well formed: each has 512 entries and a page of its
    /// own that the translation-control value can name, sits at a level of
    /// the scheme (the root at the top one), and each pointer entry above
    /// level zero names a table one level down, no other entry naming it.
    pub closed spec fn wf(&self) -> bool {
        let ts = self.tables@;
        let lv = self.levels@;
        &&& 1 <= S::spec_level() <= 5
        &&& ts.len() >= 1
        &&& lv.len() == ts.len()
        &&& lv[0] == S::spec_level() - 1
        &&& forall|i: int|
            0 <= i < ts.len() ==> {
                &&& (#[trigger] ts[i]).entries@.len() == 512
                &&& (ts[i].ppn as u64) < TABLE_PPN_LIMIT
                &&& lv[i] < S::spec_level()
            }
        &&& unique_pages(ts)
        &&& forall|i: int, k: int| 0 <= i < ts.len() && 0 <= k < 512 ==> #[trigger] linked(ts, lv, i, k)
        &&& unique_targets(ts, lv)
    }

    /// The entries of the root table.
    pub open spec fn root_entries(&self) -> Seq<u64> {
        self.spec_tables()[0].spec_entries()
    }

    /// The entry that the walk of `va` from the root reads at `level`, if
    /// the walk gets that far.
    pub open spec fn entry_on_walk(&self, va: usize, level: nat) -> Option<u64> {
        slot(self.spec_tables(), 0, (S::spec_level() - 1) as nat, va, level)
    }

    /// Every address of `free` lies in a page below the page-number limit
    /// that holds none of these tables, so a frame taken from `free` can hold
    /// a new table.
    pub open spec fn can_hold_tables(&self, free: Set<int>) -> bool {
        pages_usable(self.spec_tables(), free)
    }

    /// The walk of `va` from the root meets a valid leaf above `level`.
    pub open spec fn leaf_on_walk(&self, va: usize, level: nat) -> bool {
        leaf_above(self.spec_tables(), 0, (S::spec_level() - 1) as nat, va, level)
    }

    /// What the hardware walker makes of the virtual address `va`, starting
    /// at the root: `None` for a fault, else the physical address.
    pub open spec fn translation(&self, va: usize) -> Option<u64> {
        walk(self.spec_tables(), 0, (S::spec_level() - 1) as nat, va)
    }

    /// A root table of invalid entries, stored in page `ppn`.
    pub fn located_at(ppn: usize) -> (r: Self)
        requires
            (ppn as u64) < TABLE_PPN_LIMIT,
        ensures
            r.wf(),
            r.spec_ppn() == ppn,
            r.spec_tables().len() == 1,
            r.root_entries() == Seq::new(512, |k: int| 0u64),
            forall|va: usize| r.translation(va) is None,
    {
        let top = S::level();
        let t = PageTable::zero_at(ppn);
        let mut tables: Vec<PageTable> = Vec::new();
        tables.push(t);
        let ghost lv: Seq<nat> = seq![(top - 1) as nat];
        let r = RootPageTable {
            tables,
            frames: Vec::new(),
            levels: Ghost(lv),
            scheme: PhantomData,
        };
        assert(r.tables@[0] == t);
        assert(t.spec_entries().len() == 512);
        assert(t.entries@.len() == 512);
        assert forall|i: int, k: int| 0 <= i < r.tables@.len() && 0 <= k < 512 implies #[trigger] linked(
            r.tables@,
            r.levels@,
            i,
            k,
        ) by {
            assert(t.spec_entries()[k] == 0u64);
            assert(r.tables@[i].entries@[k]@ == t.spec_entries()[k]);
            assert(0u64 & 1 == 0) by (bit_vector);
        }
        assert forall|i: int, k: int| 0 <= i < r.tables@.len() && 0 <= k < 512 implies !is_pointer(
            r.tables@,
            r.levels@,
            i,
            k,
        ) by {
            assert(t.spec_entries()[k] == 0u64);
            assert(r.tables@[i].entries@[k]@ == t.spec_entries()[k]);
            assert(0u64 & 1 == 0) by (bit_vector);
        }
        assert forall|va: usize| r.translation(va) is None by {
            let k = pn_of(va, (top - 1) as nat) as int;
            assert((pn_of(va, (top - 1) as nat) as u64) < 512) by {
                let x = va as u64;
                let s = (12 + 9 * (top - 1)) as u64;
                assert((x >> s) & 0x1ff < 512) by (bit_vector);
            }
            assert(r.tables@[0].entries@[k]@ == t.spec_entries()[k]);
            assert(0u64 & 1 == 0) by (bit_vector);
        }
        r
    }

    /// A root table of invalid entries, stored in page zero.
    pub fn zero() -> (r: Self)
        ensures
            r.wf(),
            r.spec_ppn() == 0,
            r.spec_tables().len() == 1,
            r.root_entries() == Seq::new(512, |k: int| 0u64),
            forall|va: usize| r.translation(va) is None,
    {
        RootPageTable::located_at(0)
    }

    /// The number of tables: the root and those added below it.
    pub fn table_count(&self) -> (r: usize)
        ensures
            r == self.spec_tables().len(),
    {
        self.tables.len()
    }

    /// The table at index `i`; the root is at index zero.
    pub fn table(&self, i: usize) -> (r: &PageTable)
        requires
            i < self.spec_tables().len(),
        ensures
            *r == self.spec_tables()[i as int],
    {
        &self.tables[i]
    }

    /// The page the root table is stored in.
    pub fn ppn(&self) -> (r: usize)
        requires
            self.wf(),
        ensures
            r == self.spec_ppn(),
            (r as u64) < TABLE_PPN_LIMIT,
    {
        self.tables[0].ppn
    }

    /// The translation-control value that makes this table the active root:
    /// the scheme's mode in bits 60 to 63, the low 16 bits of `asid` in
    /// bits 44 to 59, and the root's page number below.
    pub fn satp(&self, asid: usize) -> (r: u64)
        requires
            self.wf(),
        ensures
            r == ((S::spec_mode() as u64) << 60) | (((asid as u64) << 44) & 0x0fff_f000_0000_0000)
                | (self.spec_ppn() as u64),
            r >> 60 == S::spec_mode(),
            (r >> 44) & 0xffff == (asid as u64) & 0xffff,
            r & 0xfff_ffff_ffff == self.spec_ppn() as u64,
    {
        let mode = S::mode();
        let a = asid as u64;
        let p = self.ppn() as u64;
        assert(mode < 16 && p < 0x1000_0000_0000 ==> ((mode << 60) | ((a << 44)
            & 0x0fff_f000_0000_0000) | p) >> 60 == mode) by (bit_vector);
        assert(mode < 16 && p < 0x1000_0000_0000 ==> (((mode << 60) | ((a << 44)
            & 0x0fff_f000_0000_0000) | p) >> 44) & 0xffff == a & 0xffff) by (bit_vector);
        assert(mode < 16 && p < 0x1000_0000_0000 ==> ((mode << 60) | ((a << 44)
            & 0x0fff_f000_0000_0000) | p) & 0xfff_ffff_ffff == p) by (bit_vector);
        (mode << 60) | ((a << 44) & SATP_ASID_MASK) | p
    }

    /// The index of the table stored in page `ppn`, if there is one.
    fn find_table(&self, ppn: u64) -> (r: Option<usize>)
        requires
            self.wf(),
        ensures
            match r {
                Some(j) => {
                    &&& j < self.tables@.len()
                    &&& self.tables@[j as int].ppn as u64 == ppn
                    &&& j == table_index(self.tables@, ppn)
                    &&& has_table(self.tables@, ppn)
                },
                None => !has_table(self.tables@, ppn),
            },
    {
        let mut j: usize = 0;
        while j < self.tables.len()
            invariant
                self.wf(),
                j <= self.tables@.len(),
                forall|x: int| 0 <= x < j ==> self.tables@[x].ppn as u64 != ppn,
            decreases self.tables@.len() - j,
        {
            if self.tables[j].ppn as u64 == ppn {
                proof {
                    lemma_index_of(self.tables@, ppn, j as int);
                }
                return Some(j);
            }
            j += 1;
        }
        None
    }

    /// Walks the tables as the hardware would for `virt_addr`, from the top
    /// level down, and gives the physical address its leaf maps it to, or
    /// `None` where the walk meets an invalid entry.
    pub fn translate<T>(&self, virt_addr: Address) -> (r: Option<Address>)
        requires
            self.wf(),
        ensures
            match self.translation(virt_addr@) {
                None => r is None,
                Some(pa) => r matches Some(a) && a@ == pa as usize,
            },
    {
        let top = S::level();
        let ghost va = virt_addr@;
        let mut level: usize = top - 1;
        let mut cur: usize = 0;
        loop
            invariant
                self.wf(),
                va == virt_addr@,
                level < top,
                top == S::spec_level(),
                cur < self.tables@.len(),
                self.translation(va) == walk(self.tables@, cur as int, level as nat, va),
            decreases level,
        {
            let idx = pn_at(&virt_addr, level);
            let e = self.tables[cur].entry(idx);
            assert(e@ == entry_at(self.tables@, cur as int, idx as int));
            if !e.is_valid() {
                return None;
            }
            if e.is_leaf() {
                let mask = mask_at(level);
                if (e.page_number() << 12) & mask != 0 {
                    return None;
                }
                let pa = ((e.page_number() << 12) & !mask) | ((virt_addr.as_usize() as u64) & mask);
                return Some(Address::new(pa as usize));
            }
            if level == 0 {
                return None;
            }
            match self.find_table(e.page_number()) {
                None => {
                    return None;
                },
                Some(j) => {
                    cur = j;
                    level = level - 1;
                },
            }
        }
    }
    /// Installs a leaf of granularity `align_size` that maps `virt_addr` to
    /// `phy_addr` with `flags`, adding the tables it needs below the root
    /// from `frames`. It fails with `OutOfMemory`, changing nothing, when the
    /// scheme has too few levels for the granularity; with
    /// `AddressNotAligned`, changing nothing, when either address is not a
    /// multiple of the granularity; with `AlreadyMapped` when a coarser leaf
    /// covers the address; with `OutOfMemory` when no frame is left for a
    /// table. A leaf at the root's own level always succeeds. Addresses
    /// outside the new leaf's region translate as before, and a failed call
    /// changes no translation.
    pub fn map(
        &mut self,
        frames: &mut FrameAllocator<S>,
        virt_addr: Address,
        phy_addr: Address,
        align_size: AlignSize,
        flags: PageTableEntryFlags,
    ) -> (r: Result<(), Error>)
        requires
            old(self).wf(),
            old(frames).wf(),
            flags@ & 1 == 0 || flags@ & 0xe != 0,
        ensures
            final(self).wf(),
            final(frames).wf(),
            final(self).spec_ppn() == old(self).spec_ppn(),
            align_size.spec_level() >= S::spec_level() ==> {
                &&& r == Err::<(), Error>(Error::OutOfMemory)
                &&& *final(self) == *old(self)
                &&& *final(frames) == *old(frames)
            },
            align_size.spec_level() < S::spec_level() && !(aligned_for(virt_addr@, align_size)
                && aligned_for(phy_addr@, align_size)) ==> {
                &&& r == Err::<(), Error>(Error::AddressNotAligned)
                &&& *final(self) == *old(self)
                &&& *final(frames) == *old(frames)
            },
            align_size.spec_level() + 1 == S::spec_level() && aligned_for(virt_addr@, align_size)
                && aligned_for(phy_addr@, align_size) ==> r is Ok,
            align_size.spec_level() < S::spec_level() && aligned_for(virt_addr@, align_size)
                && aligned_for(phy_addr@, align_size) && !old(self).leaf_on_walk(
                virt_addr@,
                align_size.spec_level(),
            ) && old(self).can_hold_tables(old(frames).free()) && free_pages(old(frames).free()).len()
                + align_size.spec_level() + 1 >= S::spec_level() ==> r is Ok,
            r == Err::<(), Error>(Error::AddressNotAligned) ==> align_size.spec_level() < S::spec_level()
                && !(aligned_for(virt_addr@, align_size) && aligned_for(phy_addr@, align_size)),
            align_size.spec_level() < S::spec_level() && aligned_for(virt_addr@, align_size)
                && aligned_for(phy_addr@, align_size) ==> (r == Err::<(), Error>(Error::AlreadyMapped)
                <==> old(self).leaf_on_walk(virt_addr@, align_size.spec_level())),
            r is Ok ==> final(self).entry_on_walk(virt_addr@, align_size.spec_level()) == Some(
                leaf_bits(phy_addr@, flags@),
            ),
            r is Ok && align_size.spec_level() + 1 == S::spec_level() ==> final(self).root_entries()
                == old(self).root_entries().update(
                pn_of(virt_addr@, align_size.spec_level()) as int,
                leaf_bits(phy_addr@, flags@),
            ),
            r is Ok ==> {
                &&& align_size.spec_level() < S::spec_level()
                &&& aligned_for(virt_addr@, align_size)
                &&& aligned_for(phy_addr@, align_size)
                &&& flags@ & 1 != 0 ==> forall|va: usize|
                    same_fields(va, virt_addr@, align_size.spec_level(), (S::spec_level() - 1) as nat)
                        ==> #[trigger] final(self).translation(va) == Some(
                        mapped_target(phy_addr@, align_size.spec_level(), va),
                    )
                &&& forall|va: usize|
                    !same_fields(va, virt_addr@, align_size.spec_level(), (S::spec_level() - 1) as nat)
                        ==> #[trigger] final(self).translation(va) == old(self).translation(va)
            },
            r is Err ==> forall|va: usize| #[trigger] final(self).translation(va) == old(self).translation(va),
    {
        let top = S::level();
        let target = align_size.level();
        if target >= top {
            return Err(Error::OutOfMemory);
        }
        if !is_aligned_for(&virt_addr, align_size) || !is_aligned_for(&phy_addr, align_size) {
            return Err(Error::AddressNotAligned);
        }
        let ghost va = virt_addr@;
        let ghost ready = !leaf_above(old(self).tables@, 0, (top - 1) as nat, va, target as nat)
            && pages_usable(old(self).tables@, old(frames).free()) && free_pages(
            old(frames).free(),
        ).len() + target + 1 >= top;
        let mut level: usize = top - 1;
        let mut cur: usize = 0;
        proof {
            assert(reaches(self.tables@, self.levels@, 0, (top - 1) as nat, 0, (top - 1) as nat, va));
        }
        while level > target
            invariant
                self.wf(),
                frames.wf(),
                va == virt_addr@,
                top == S::spec_level(),
                target == align_size.spec_level(),
                target <= level < top,
                cur < self.tables@.len(),
                self.levels@[cur as int] == level,
                reaches(self.tables@, self.levels@, 0, (top - 1) as nat, cur as int, level as nat, va),
                self.tables@[0].ppn == old(self).tables@[0].ppn,
                flags@ & 1 == 0 || flags@ & 0xe != 0,
                aligned_for(virt_addr@, align_size),
                aligned_for(phy_addr@, align_size),
                forall|vb: usize| #[trigger] walk(self.tables@, 0, (top - 1) as nat, vb) == walk(
                    old(self).tables@,
                    0,
                    (top - 1) as nat,
                    vb,
                ),
                leaf_above(old(self).tables@, 0, (top - 1) as nat, va, target as nat) == leaf_above(
                    self.tables@,
                    cur as int,
                    level as nat,
                    va,
                    target as nat,
                ),
                level == top - 1 ==> self.tables@ == old(self).tables@ && cur == 0,
                ready == (!leaf_above(old(self).tables@, 0, (top - 1) as nat, va, target as nat)
                    && pages_usable(old(self).tables@, old(frames).free()) && free_pages(
                    old(frames).free(),
                ).len() + target + 1 >= top),
                ready ==> {
                    &&& pages_usable(self.tables@, frames.free())
                    &&& free_pages(frames.free()).len() + target >= level
                    &&& !leaf_above(old(self).tables@, 0, (top - 1) as nat, va, target as nat)
                },
            decreases level,
        {
            let idx = pn_at(&virt_addr, level);
            let e = self.tables[cur].entry(idx);
            assert(e@ == entry_at(self.tables@, cur as int, idx as int));
            if e.is_valid() {
                if e.is_leaf() {
                    assert(leaf_above(self.tables@, cur as int, level as nat, va, target as nat));
                    return Err(Error::AlreadyMapped);
                }
                match self.find_table(e.page_number()) {
                    None => {
                        proof {
                            let ts = self.tables@;
                            let lv = self.levels@;
                            assert(linked(ts, lv, cur as int, idx as int));
                        }
                        return Err(Error::OutOfMemory);
                    },
                    Some(j) => {
                        proof {
                            let ts = self.tables@;
                            let lv = self.levels@;
                            assert(linked(ts, lv, cur as int, idx as int));
                            let w = choose|w: int|
                                0 <= w < ts.len() && ts[w].ppn as u64 == page_number_of(e@) && lv[w]
                                    == lv[cur as int] - 1;
                            lemma_index_of(ts, page_number_of(e@), w);
                            lemma_reach_extend(ts, lv, 0, (top - 1) as nat, cur as int, level as nat, va, j as int);
                            assert(leaf_above(ts, cur as int, level as nat, va, target as nat) == leaf_above(
                                ts,
                                j as int,
                                (level - 1) as nat,
                                va,
                                target as nat,
                            ));
                        }
                        cur = j;
                    },
                }
            } else {
                assert(!leaf_above(self.tables@, cur as int, level as nat, va, target as nat));
                let ghost free0 = frames.free();
                proof {
                    crate::allocator::lemma_page_block();
                    crate::allocator::lemma_free_finite(*frames);
                    lemma_free_pages_finite(free0);
                    if ready {
                        let c = choose|c: int| free_pages(free0).contains(c);
                        assert(frame_range(c, c + 4096).subset_of(free0));
                        assert(crate::allocator::has_free_block(free0, 4096));
                    }
                }
                let frame = match frames.alloc_frame(4096) {
                    Ok(f) => f,
                    Err(_) => {
                        return Err(Error::OutOfMemory);
                    },
                };
                let ppn = frame.addr() / 4096;
                let ghost a = frame.spec_addr() as int;
                proof {
                    assert(frame.span() == frame_range(a, a + 4096));
                    assert(frame.span().contains(a));
                    assert(free0.contains(a));
                    if ready {
                        assert(pages_usable(self.tables@, free0));
                        assert(free_pages(free0).contains(a));
                        lemma_take_page(free0, a);
                    }
                }
                if ppn as u64 >= TABLE_PPN_LIMIT {
                    frames.dealloc(frame);
                    return Err(Error::OutOfMemory);
                }
                match self.find_table(ppn as u64) {
                    Some(_) => {
                        frames.dealloc(frame);
                        return Err(Error::OutOfMemory);
                    },
                    None => {},
                }
                let ghost ts0 = self.tables@;
                let ghost lv0 = self.levels@;
                let n = self.tables.len();
                let t = PageTable::zero_at(ppn);
                self.tables.push(t);
                self.frames.push(frame);
                proof {
                    self.levels@ = lv0.push((level - 1) as nat);
                    let ts1 = self.tables@;
                    let lv1 = self.levels@;
                    assert(t.spec_entries().len() == 512);
                    assert forall|a: int, b: int|
                        0 <= a < ts1.len() && 0 <= b < ts1.len() && a != b implies #[trigger] ts1[a].ppn
                        != #[trigger] ts1[b].ppn by {
                        if a < n && b < n {
                            assert(ts0[a].ppn != ts0[b].ppn);
                        } else if a == n {
                            assert(ts0[b] == ts1[b]);
                        } else {
                            assert(ts0[a] == ts1[a]);
                        }
                    }
                    assert forall|i: int, k: int| 0 <= i < ts1.len() && 0 <= k < 512 implies #[trigger] linked(
                        ts1,
                        lv1,
                        i,
                        k,
                    ) by {
                        if i < n {
                            assert(linked(ts0, lv0, i, k));
                            lemma_linked_append(ts0, lv0, ts1, lv1, i, k);
                        } else {
                            assert(t.spec_entries()[k] == 0u64);
                            assert(entry_at(ts1, i, k) == t.spec_entries()[k]);
                            assert(0u64 & 1 == 0) by (bit_vector);
                        }
                    }
                    assert(agrees_above(ts0, lv0, ts1, lv1, level as nat));
                    lemma_reach_frame(ts0, lv0, ts1, lv1, 0, (top - 1) as nat, cur as int, level as nat, va);
                    assert forall|k: int| 0 <= k < 512 implies !valid_entry(
                        #[trigger] entry_at(ts1, n as int, k),
                    ) by {
                        assert(t.spec_entries()[k] == 0u64);
                        assert(entry_at(ts1, n as int, k) == t.spec_entries()[k]);
                        assert(0u64 & 1 == 0) by (bit_vector);
                    }
                    lemma_targets_append(ts0, lv0, ts1, lv1);
                    assert forall|i: int, k: int|
                        0 <= i < ts1.len() && 0 <= k < 512 && #[trigger] is_pointer(ts1, lv1, i, k)
                            implies page_number_of(entry_at(ts1, i, k)) != ppn as u64 by {
                        if i == n {
                            assert(!valid_entry(entry_at(ts1, n as int, k)));
                        } else {
                            assert(ts1[i] == ts0[i]);
                            assert(linked(ts0, lv0, i, k));
                            let j = choose|j: int|
                                0 <= j < ts0.len() && ts0[j].ppn as u64 == page_number_of(
                                    entry_at(ts0, i, k),
                                ) && lv0[j] == lv0[i] - 1;
                            assert(!has_table(ts0, ppn as u64));
                        }
                    }
                }
                let ptr = PageTableEntry::with_page(
                    ppn as u64,
                    PageTableEntryFlags::from_bits_truncate(FLAG_V),
                );
                let ghost ts1 = self.tables@;
                let ghost lv1 = self.levels@;
                self.tables[cur].set_entry(idx, ptr);
                proof {
                    let ts2 = self.tables@;
                    let p = ptr@;
                    assert(p & 0xff == 1 ==> p & 1 != 0 && p & 0xe == 0) by (bit_vector);
                    assert(cur < n);
                    assert(ts2[n as int] == ts1[n as int]);
                    assert(ts1[n as int].ppn == ppn);
                    assert(ts2[n as int].ppn as u64 == page_number_of(p));
                    assert(lv1[n as int] == lv1[cur as int] - 1);
                    assert(forall|x: int| 0 <= x < ts1.len() ==> (#[trigger] ts2[x]).ppn == ts1[x].ppn);
                    assert forall|i: int, k: int| 0 <= i < ts2.len() && 0 <= k < 512 implies #[trigger] linked(
                        ts2,
                        lv1,
                        i,
                        k,
                    ) by {
                        if i == cur && k == idx {
                            assert(ts2[n as int].ppn as u64 == page_number_of(p));
                        } else {
                            assert(linked(ts1, lv1, i, k));
                            lemma_linked_update(ts1, lv1, ts2, i, k);
                        }
                    }
                    assert forall|i: int, k: int|
                        0 <= i < ts1.len() && 0 <= k < 512 && (i != cur || k != idx) implies #[trigger] entry_at(
                        ts2,
                        i,
                        k,
                    ) == entry_at(ts1, i, k) by {
                        if i != cur {
                            assert(ts2[i] == ts1[i]);
                        }
                    }
                    lemma_targets_write(ts1, lv1, ts2, cur as int, idx as int);
                    assert(agrees_above(ts1, lv1, ts2, lv1, level as nat));
                    lemma_reach_frame(ts1, lv1, ts2, lv1, 0, (top - 1) as nat, cur as int, level as nat, va);
                    assert(entry_at(ts2, cur as int, idx as int) == p);
                    lemma_index_of(ts2, page_number_of(p), n as int);
                    lemma_reach_extend(ts2, lv1, 0, (top - 1) as nat, cur as int, level as nat, va, n as int);
                    assert forall|x: int, k: int|
                        0 <= x < ts0.len() && 0 <= k < 512 && (x != cur || k != idx) implies #[trigger] entry_at(
                        ts2,
                        x,
                        k,
                    ) == entry_at(ts0, x, k) by {
                        assert(ts1[x] == ts0[x]);
                        assert(entry_at(ts2, x, k) == entry_at(ts1, x, k));
                    }
                    assert forall|x: int| 0 <= x < ts0.len() implies (#[trigger] ts2[x]).ppn == ts0[x].ppn by {
                        assert(ts1[x] == ts0[x]);
                    }
                    assert(ts2[n as int] == ts1[n as int]);
                    assert forall|k: int| 0 <= k < 512 implies !valid_entry(
                        #[trigger] entry_at(ts2, n as int, k),
                    ) by {
                        assert(entry_at(ts2, n as int, k) == entry_at(ts1, n as int, k));
                    }
                    assert(unique_pages(ts2)) by {
                        assert forall|a: int, b: int|
                            0 <= a < ts2.len() && 0 <= b < ts2.len() && a != b implies #[trigger] ts2[a].ppn
                            != #[trigger] ts2[b].ppn by {
                            assert(ts1[a].ppn != ts1[b].ppn);
                        }
                    }
                    assert forall|vb: usize| #[trigger] walk(ts2, 0, (top - 1) as nat, vb) == walk(
                        ts0,
                        0,
                        (top - 1) as nat,
                        vb,
                    ) by {
                        lemma_walk_grow(ts0, lv0, ts2, cur as int, idx as int, 0, (top - 1) as nat, vb);
                    }
                    if level - 1 > target {
                        let kn = pn_of(va, (level - 1) as nat) as int;
                        crate::entry::lemma_nine_bits((va as u64) >> (12 + 9 * (level - 1)) as u64);
                        assert(!valid_entry(entry_at(ts2, n as int, kn)));
                    }
                    assert(!leaf_above(ts2, n as int, (level - 1) as nat, va, target as nat));
                    if ready {
                        let free1 = frames.free();
                        assert(free1 == free0.difference(frame_range(a, a + 4096)));
                        assert forall|b: int| #[trigger] free1.contains(b) implies 0 <= b
                            < TABLE_PPN_LIMIT * 4096 && !has_table(ts2, (b / 4096) as u64) by {
                            assert(free0.contains(b));
                            assert(b / 4096 != a / 4096);
                            if has_table(ts2, (b / 4096) as u64) {
                                let x = choose|x: int| 0 <= x < ts2.len() && ts2[x].ppn as u64 == (b / 4096) as u64;
                                if x < n {
                                    assert(ts2[x].ppn == ts0[x].ppn);
                                } else {
                                    assert(ts2[x].ppn == ppn);
                                }
                            }
                        }
                    }
                }
                cur = n;
            }
            level = level - 1;
        }
        let idx = pn_at(&virt_addr, target);
        let pa = phy_addr.as_usize() as u64;
        let ppn = (pa >> 12) & 0x1fff_ffff_ffff;
        assert((pa >> 12) & 0x1fff_ffff_ffff < 0x2000_0000_0000) by (bit_vector);
        let leaf = PageTableEntry::with_page(ppn, flags);
        let ghost ts1 = self.tables@;
        let ghost lv1 = self.levels@;
        self.tables[cur].set_entry(idx, leaf);
        proof {
            let ts2 = self.tables@;
            let x = leaf@;
            let f = flags@ as u64;
            assert(x & 0xff == f ==> (x & 1 == f & 1 && x & 0xe == f & 0xe)) by (bit_vector);
            assert(forall|y: int| 0 <= y < ts1.len() ==> (#[trigger] ts2[y]).ppn == ts1[y].ppn);
            assert forall|i: int, k: int| 0 <= i < ts2.len() && 0 <= k < 512 implies #[trigger] linked(
                ts2,
                lv1,
                i,
                k,
            ) by {
                if i == cur && k == idx {
                } else {
                    assert(linked(ts1, lv1, i, k));
                    lemma_linked_update(ts1, lv1, ts2, i, k);
                }
            }
            assert forall|i: int, k: int|
                0 <= i < ts1.len() && 0 <= k < 512 && (i != cur || k != idx) implies #[trigger] entry_at(
                ts2,
                i,
                k,
            ) == entry_at(ts1, i, k) by {
                if i != cur {
                    assert(ts2[i] == ts1[i]);
                }
            }
            assert(entry_at(ts2, cur as int, idx as int) == x);
            lemma_targets_write(ts1, lv1, ts2, cur as int, idx as int);
            assert(agrees_above(ts1, lv1, ts2, lv1, target as nat));
            lemma_reach_frame(ts1, lv1, ts2, lv1, 0, (top - 1) as nat, cur as int, target as nat, va);
            lemma_reach_slot(ts2, lv1, 0, (top - 1) as nat, cur as int, target as nat, va);
            lemma_aligned_page(phy_addr@, align_size);
            assert(x == leaf_bits(phy_addr@, flags@));
            let m = low_mask(target as nat);
            assert((((pa >> 12) & 0x1fff_ffff_ffff) << 12) & !m == (pa & 0x01ff_ffff_ffff_f000) & !m)
                by (bit_vector);
            assert forall|vb: usize|
                !same_fields(vb, va, target as nat, (top - 1) as nat) implies #[trigger] walk(
                ts2,
                0,
                (top - 1) as nat,
                vb,
            ) == walk(ts1, 0, (top - 1) as nat, vb) by {
                if reaches(ts1, lv1, 0, (top - 1) as nat, cur as int, target as nat, vb) && pn_of(
                    vb,
                    target as nat,
                ) == idx {
                    lemma_reach_unique(ts1, lv1, 0, 0, (top - 1) as nat, cur as int, target as nat, vb, va);
                    assert(same_fields(vb, va, target as nat, (top - 1) as nat));
                }
                lemma_walk_write(ts1, lv1, ts2, cur as int, idx as int, target as nat, 0, (top - 1) as nat, vb);
            }
            assert forall|vb: usize|
                flags@ & 1 != 0 && same_fields(vb, va, target as nat, (top - 1) as nat) implies #[trigger] walk(
                ts2,
                0,
                (top - 1) as nat,
                vb,
            ) == Some(mapped_target(phy_addr@, target as nat, vb)) by {
                assert forall|l: nat| target + 1 <= l <= top - 1 implies pn_of(va, l) == pn_of(vb, l) by {
                    assert(pn_of(vb, l) == pn_of(va, l));
                }
                lemma_reach_same_fields(ts2, lv1, 0, (top - 1) as nat, cur as int, target as nat, va, vb);
                lemma_reach_walk(ts2, lv1, 0, (top - 1) as nat, cur as int, target as nat, vb);
                assert(pn_of(vb, target as nat) == pn_of(va, target as nat));
                assert(leaf_entry(x));
                assert(walk(ts2, cur as int, target as nat, vb) == Some(leaf_target(x, target as nat, vb)));
            }
        }
        Ok(())
    }
}

/// A leaf of granularity `g` needs both addresses aligned to `g`: one byte
/// below a multiple of its size is refused, for each granularity.
pub proof fn lemma_map_alignment_boundary(a: usize, g: AlignSize)
    requires
        a > 0,
        aligned_for(a, g),
    ensures
        !aligned_for((a - 1) as usize, g),
{
    crate::address::lemma_one_byte_short(a as nat, g.spec_bytes());
}

/// After a 1GiB leaf maps the region of `v` to `p` (what `map` promises for
/// every `v` that shares the leaf's page-number fields), translating `v`
/// gives an address whose page number (the bits from 30 up) is that of `p`,
/// and whose low 30 bits are those of `v`.
pub proof fn lemma_gigapage_round_trip<S: PageTableSpec>(t: RootPageTable<S>, v: usize, p: usize)
    requires
        t.translation(v) == Some(mapped_target(p, AlignSize::Page1G.spec_level(), v)),
    ensures
        t.translation(v) matches Some(q) && {
            &&& q >> 30 == ((p as u64) >> 30) & 0x7ff_ffff
            &&& q & 0x3fff_ffff == (v as u64) & 0x3fff_ffff
        },
{
    let x = p as u64;
    let y = v as u64;
    assert((((x & 0x01ff_ffff_ffff_f000 & !0x3fff_ffffu64) | (y & 0x3fff_ffff)) >> 30) == (x >> 30)
        & 0x7ff_ffff) by (bit_vector);
    assert((((x & 0x01ff_ffff_ffff_f000 & !0x3fff_ffffu64) | (y & 0x3fff_ffff)) & 0x3fff_ffff) == y
        & 0x3fff_ffff) by (bit_vector);
}

} // verus!
