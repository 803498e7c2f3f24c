//! The kernel's static page table: sixteen frames from its root on (the
//! root, four second-level tables, eleven leaf tables), used for the
//! identity mapping of the kernel.
use vstd::prelude::*;
use crate::mm::address::{PhysAddr, PhysPageNum, VirtPageNum, VirtualAddr, align_down, align_up, size_2m, size_4k};
use crate::mm::memory_set::MemoryStaticArea;
use crate::mm::page_table::{
    PTE_V,
    PageTableEntry,
    PhysMemory,
    RisvPTEFlags,
    idx,
    lemma_idx_bounds,
    lemma_pte_round_trip,
    lemma_write_word_effect,
    pte_of,
    pte_valid,
};

verus! {

/// The number of leaf tables of the static table.
pub const RISV_THIRD_TABLE_NUM: usize = 11;

/// The static page table at physical address `table`; `usage[i]` is 1
/// while leaf table `i` is unused.
pub struct StaticPageTable {
    pub table: u64,
    pub usage: [u8; 11],
}

/// `b` is `a` with word `i` of frame `f` set to `v` when the word there is
/// not a valid entry, and unchanged otherwise.
pub open spec fn entry_set(a: PhysMemory, b: PhysMemory, f: u64, i: int, v: u64) -> bool {
    &&& b.base_ppn == a.base_ppn
    &&& if !pte_valid(a.word(f, i)) {
        b.words@ == a.words@.update(a.pos(f, i), v)
    } else {
        b.words@ == a.words@
    }
}

/// Sets the entry that `vpn` selects at `level` in the table at physical
/// address `table_prt` to map `ppn` with `flags` (and valid), unless it is
/// valid already.
pub fn set_n_level_entry(
    m: &mut PhysMemory,
    table_prt: u64,
    vpn: VirtPageNum,
    ppn: PhysPageNum,
    flags: RisvPTEFlags,
    level: usize,
)
    requires
        table_prt % 4096 == 0,
        old(m).has_frame(table_prt / 4096),
        level < 3,
    ensures
        entry_set(*old(m), *final(m), table_prt / 4096, idx(vpn.0, level as nat), pte_of(ppn.0, 1u8 | flags.bits)),
{
    let vidx = vpn.get_table_indexs();
    let f = table_prt / 4096;
    let cur_entry = PageTableEntry::from(m.read_word(f, vidx[level] as usize));
    if !cur_entry.is_valid() {
        let entry = PageTableEntry::new(ppn, RisvPTEFlags { bits: PTE_V }.union(flags));
        m.write_word(f, vidx[level] as usize, entry.entry);
    }
}

/// The page number that address `a` names, kept to 56 bits.
pub open spec fn pa_page(a: int) -> u64 {
    ((a % 0x100_0000_0000_0000) / 4096) as u64
}

/// Word `j` of a table where the `n` entries from `start` on (around the
/// table) are set, entry `i` of them to the page `step` pages after page
/// `p_start`'s `i`-th step, where they were not valid: the value after.
pub open spec fn filled_word(
    old_word: u64,
    j: int,
    start: int,
    n: int,
    p_start: u64,
    step: int,
    flags: u8,
) -> u64 {
    let i = (j - start + 512) % 512;
    if i < n && !pte_valid(old_word) {
        pte_of(pa_page(p_start + i * step), 1u8 | flags)
    } else {
        old_word
    }
}

/// Frame `f` of `b` holds the words of `a` filled as `filled_word` says;
/// every other frame is unchanged.
pub open spec fn table_filled(
    a: PhysMemory,
    b: PhysMemory,
    f: u64,
    start: int,
    n: int,
    p_start: u64,
    step: int,
    flags: u8,
) -> bool {
    &&& b.base_ppn == a.base_ppn
    &&& b.words@.len() == a.words@.len()
    &&& forall|j: int| 0 <= j < 512 ==> #[trigger] b.word(f, j) == filled_word(a.word(f, j), j, start, n, p_start, step, flags)
    &&& forall|q: u64, j: int|
        #![trigger b.word(q, j)]
        a.has_frame(q) && 0 <= j < 512 && q != f ==> b.word(q, j) == a.word(q, j)
}

/// `b` is `a` with word `i` of frame `f` set or kept, as `entry_set` says:
/// the frames of memory stay the same.
proof fn lemma_write_word_effect_any(a: PhysMemory, b: PhysMemory, f: u64, i: int)
    requires
        b.base_ppn == a.base_ppn,
        b.words@ == a.words@ || exists|v: u64| b.words@ == a.words@.update(a.pos(f, i), v),
        a.has_frame(f),
        0 <= i < 512,
    ensures
        forall|q: u64| #[trigger] b.has_frame(q) == a.has_frame(q),
        forall|q: u64, j: int|
            #![trigger b.word(q, j)]
            a.has_frame(q) && 0 <= j < 512 && (q != f || j != i) ==> b.word(q, j) == a.word(q, j),
{
    if b.words@ != a.words@ {
        let v = choose|v: u64| b.words@ == a.words@.update(a.pos(f, i), v);
        lemma_write_word_effect(a, b, f, i, v);
    }
}

/// What `set_l2_pointer_entry` does for page `vpn` (taking `ta` to `tb` and
/// `ma` to `mb`, returning `r`): the root entry of `vpn` is set to its
/// second-level table where it was not valid; then, where the
/// second-level entry is valid, `r` is the table it points at and nothing
/// else changes; else the first unused leaf table is taken, the entry
/// points at it, and `r` is its address.
pub open spec fn l2_pointer_post(
    ta: StaticPageTable,
    tb: StaticPageTable,
    ma: PhysMemory,
    mb: PhysMemory,
    vpn: u64,
    r: u64,
) -> bool {
    let second = ta.second_of(vpn);
    exists|m1: PhysMemory|
        #[trigger] entry_set(ma, m1, ta.table / 4096, idx(vpn, 2), pte_of(second / 4096, 1u8 | 1u8)) && if pte_valid(
            m1.word(second / 4096, idx(vpn, 1)),
        ) {
            &&& r == crate::mm::page_table::pte_ppn(m1.word(second / 4096, idx(vpn, 1))) * 4096
            &&& mb == m1
            &&& tb == ta
        } else {
            exists|i: int|
                0 <= i < 11 && ta.usage[i] == 1 && (forall|k: int| 0 <= k < i ==> ta.usage[k] != 1) && tb.usage@
                    == ta.usage@.update(i, 0) && tb.table == ta.table && r == ta.table + 4096 * (5 + i) && entry_set(
                    m1,
                    mb,
                    second / 4096,
                    idx(vpn, 1),
                    pte_of(r / 4096, 1u8 | 1u8),
                )
        }
}

/// One more entry of a fill: setting the `i`-th entry (where not valid)
/// extends the fill of `i` entries to `i + 1`.
#[verifier::spinoff_prover]
#[verifier::rlimit(40)]
proof fn lemma_fill_step(
    m1: PhysMemory,
    a: PhysMemory,
    b: PhysMemory,
    f: u64,
    start: int,
    i: int,
    p_start: u64,
    step: int,
    flags: u8,
)
    requires
        table_filled(m1, a, f, start, i, p_start, step, flags),
        entry_set(a, b, f, (start + i) % 512, pte_of(pa_page(p_start + i * step), 1u8 | flags)),
        m1.has_frame(f),
        0 <= start < 512,
        0 <= i,
    ensures
        table_filled(m1, b, f, start, i + 1, p_start, step, flags),
{
    let j0 = (start + i) % 512;
    let v = pte_of(pa_page(p_start + i * step), 1u8 | flags);
    assert(a.has_frame(f));
    lemma_write_word_effect_any(a, b, f, j0);
    assert(pa_page(p_start + i * step) < 0x1000_0000_0000);
    lemma_pte_round_trip(pa_page(p_start + i * step), 1u8 | flags);
    crate::mm::page_table::lemma_flag_bits(0);
    assert((1u8 | flags) & 1u8 == 1u8);
    if !pte_valid(a.word(f, j0)) {
        lemma_write_word_effect(a, b, f, j0, v);
    }
    vstd::arithmetic::div_mod::lemma_fundamental_div_mod(start + i, 512);
    vstd::arithmetic::div_mod::lemma_fundamental_div_mod(i, 512);
    let q = (start + i) / 512;
    assert(start + i == 512 * q + j0);
    assert(0 <= j0 < 512);
    vstd::arithmetic::div_mod::lemma_fundamental_div_mod_converse(
        j0 - start + 512,
        512,
        1 - q + i / 512,
        i % 512,
    );
    assert((j0 - start + 512) % 512 == i % 512);
    assert forall|j: int| 0 <= j < 512 implies #[trigger] b.word(f, j) == filled_word(
        m1.word(f, j),
        j,
        start,
        i + 1,
        p_start,
        step,
        flags,
    ) by {
        let o = (j - start + 512) % 512;
        assert(a.word(f, j) == filled_word(m1.word(f, j), j, start, i, p_start, step, flags));
        vstd::arithmetic::div_mod::lemma_fundamental_div_mod(j - start + 512, 512);
        let q2 = (j - start + 512) / 512;
        if j != j0 {
            if o == i {
                vstd::arithmetic::div_mod::lemma_fundamental_div_mod_converse(start + i, 512, 1 - q2, j);
            }
            assert(o != i);
            assert(b.word(f, j) == a.word(f, j));
        } else {
            if i >= 512 {
                assert(o < i);
                assert(pa_page(p_start + o * step) < 0x1000_0000_0000);
                lemma_pte_round_trip(pa_page(p_start + o * step), 1u8 | flags);
                assert(pte_valid(a.word(f, j)));
                assert(b.word(f, j) == a.word(f, j));
            } else {
                vstd::arithmetic::div_mod::lemma_fundamental_div_mod_converse(i, 512, 0, i);
                assert(o == i);
                assert(a.word(f, j) == m1.word(f, j));
                if !pte_valid(a.word(f, j)) {
                    assert(b.word(f, j) == v);
                } else {
                    assert(b.word(f, j) == a.word(f, j));
                }
            }
        }
    }
}

/// The static table is ready for `set_l2_pointer_entry` on page `vpn`:
/// its frames are part of memory, and where the second-level entry of
/// `vpn` is valid the table it points at is a frame of memory; where it is
/// not, a leaf table is unused.
pub open spec fn l3_pointer_ready(t: StaticPageTable, m: PhysMemory, vpn: u64) -> bool {
    let second = t.second_of(vpn);
    let e = m.word(second / 4096, idx(vpn, 1));
    &&& t.in_memory(m)
    &&& t.table + 4096 * 513 < 0x100_0000_0000_0000
    &&& m.has_frame(second / 4096)
    &&& pte_valid(e) ==> m.has_frame(crate::mm::page_table::pte_ppn(e))
    &&& !pte_valid(e) ==> exists|i: int| 0 <= i < 11 && t.usage[i] == 1
}

/// The table that `set_l2_pointer_entry` returns is a page-aligned frame
/// of memory.
proof fn lemma_l2_pointer_frame(ta: StaticPageTable, tb: StaticPageTable, ma: PhysMemory, mb: PhysMemory, vpn: u64, r: u64)
    requires
        l3_pointer_ready(ta, ma, vpn),
        l2_pointer_post(ta, tb, ma, mb, vpn, r),
    ensures
        r % 4096 == 0,
        mb.has_frame(r / 4096),
        tb.table == ta.table,
{
    let second = ta.second_of(vpn);
    lemma_idx_bounds(vpn);
    let m1 = choose|m1: PhysMemory|
        #[trigger] entry_set(ma, m1, ta.table / 4096, idx(vpn, 2), pte_of(second / 4096, 1u8 | 1u8)) && if pte_valid(
            m1.word(second / 4096, idx(vpn, 1)),
        ) {
            &&& r == crate::mm::page_table::pte_ppn(m1.word(second / 4096, idx(vpn, 1))) * 4096
            &&& mb == m1
            &&& tb == ta
        } else {
            exists|i: int|
                0 <= i < 11 && ta.usage[i] == 1 && (forall|k: int| 0 <= k < i ==> ta.usage[k] != 1) && tb.usage@
                    == ta.usage@.update(i, 0) && tb.table == ta.table && r == ta.table + 4096 * (5 + i) && entry_set(
                    m1,
                    mb,
                    second / 4096,
                    idx(vpn, 1),
                    pte_of(r / 4096, 1u8 | 1u8),
                )
        };
    assert(ma.has_frame(ta.table / 4096)) by {
        assert(ma.has_frame((ta.table / 4096 + 0) as u64));
    }
    lemma_write_word_effect_any(ma, m1, ta.table / 4096, idx(vpn, 2));
    assert(second / 4096 != ta.table / 4096);
    assert(m1.word(second / 4096, idx(vpn, 1)) == ma.word(second / 4096, idx(vpn, 1)));
    if pte_valid(m1.word(second / 4096, idx(vpn, 1))) {
        let p = crate::mm::page_table::pte_ppn(m1.word(second / 4096, idx(vpn, 1)));
        vstd::arithmetic::div_mod::lemma_fundamental_div_mod_converse((p * 4096) as int, 4096, p as int, 0);
    } else {
        let i = choose|i: int|
            0 <= i < 11 && ta.usage[i] == 1 && (forall|k: int| 0 <= k < i ==> ta.usage[k] != 1) && tb.usage@
                == ta.usage@.update(i, 0) && tb.table == ta.table && r == ta.table + 4096 * (5 + i) && entry_set(
                m1,
                mb,
                second / 4096,
                idx(vpn, 1),
                pte_of(r / 4096, 1u8 | 1u8),
            );
        vstd::arithmetic::div_mod::lemma_fundamental_div_mod_converse(r as int, 4096, (ta.table / 4096 + 5 + i) as int, 0);
        assert(ma.has_frame((ta.table / 4096 + (5 + i)) as u64));
        lemma_write_word_effect_any(m1, mb, second / 4096, idx(vpn, 1));
    }
}

/// `b` is `a` with words `from..from + n` of frame `f` zero and every
/// other word unchanged.
pub open spec fn words_zeroed(a: PhysMemory, b: PhysMemory, f: u64, from: int, n: int) -> bool {
    &&& b.base_ppn == a.base_ppn
    &&& b.words@.len() == a.words@.len()
    &&& forall|j: int| from <= j < from + n ==> #[trigger] b.word(f, j) == 0
    &&& forall|q: u64, j: int|
        #![trigger b.word(q, j)]
        a.has_frame(q) && 0 <= j < 512 && (q != f || j < from || j >= from + n) ==> b.word(q, j) == a.word(q, j)
}

/// Sets words `from..from + n` of frame `f` to zero.
fn zero_words(m: &mut PhysMemory, f: u64, from: u64, n: u64)
    requires
        old(m).has_frame(f),
        from + n <= 512,
    ensures
        words_zeroed(*old(m), *final(m), f, from as int, n as int),
{
    let mut i: u64 = 0;
    while i < n
        invariant
            i <= n,
            from + n <= 512,
            old(m).has_frame(f),
            words_zeroed(*old(m), *m, f, from as int, i as int),
        decreases n - i,
    {
        let ghost before = *m;
        proof {
            assert(before.has_frame(f));
        }
        m.write_word(f, (from + i) as usize, 0);
        proof {
            lemma_write_word_effect(before, *m, f, (from + i) as int, 0);
        }
        i = i + 1;
    }
}

/// What `set_l3_page_entry` does for `vs..ve` from physical address `ps`:
/// nothing for an empty range; else the leaf table of `vs` is made ready
/// as `set_l2_pointer_entry` does and filled with the range's pages.
pub open spec fn l3_entries_post(
    ta: StaticPageTable,
    tb: StaticPageTable,
    ma: PhysMemory,
    mb: PhysMemory,
    vs: u64,
    ve: u64,
    ps: u64,
    flags: u8,
) -> bool {
    &&& ve <= vs ==> tb == ta && mb == ma
    &&& ve > vs ==> exists|m1: PhysMemory, r: u64|
        #[trigger] l2_pointer_post(ta, tb, ma, m1, vs / 4096, r) && table_filled(
            m1,
            mb,
            r / 4096,
            (vs / 4096) as int % 512,
            ((ve - vs) / 4096) as int,
            ps,
            4096,
            flags,
        )
}

/// What `set_l2_block_entry` does for `vs..ve` from physical address
/// `ps`: nothing for an empty range; else the root entry of `vs` points at
/// its second-level table, which is filled with the range's blocks.
pub open spec fn blocks_post(t: StaticPageTable, ma: PhysMemory, mb: PhysMemory, vs: u64, ve: u64, ps: u64, flags: u8) -> bool {
    &&& ve <= vs ==> mb == ma
    &&& ve > vs ==> exists|m1: PhysMemory|
        #[trigger] entry_set(
            ma,
            m1,
            t.table / 4096,
            idx(vs / 4096, 2),
            pte_of(t.second_of(vs / 4096) / 4096, 1u8 | 1u8),
        ) && table_filled(
            m1,
            mb,
            t.second_of(vs / 4096) / 4096,
            (vs / 0x20_0000) as int % 512,
            ((ve - vs) / 0x20_0000) as int,
            ps,
            0x20_0000,
            flags,
        )
}

impl StaticPageTable {
    /// Whether the table's root lies on a page boundary, as the static
    /// table must.
    pub fn check_block_table_aligned(&self) -> (r: bool)
        ensures
            r == (self.table % 4096 == 0),
    {
        self.table % 4096 == 0
    }

    /// Whether the static table's frames are part of memory, its root
    /// page aligned.
    pub open spec fn in_memory(&self, m: PhysMemory) -> bool {
        &&& self.table % 4096 == 0
        &&& forall|k: int| 0 <= k < 16 ==> #[trigger] m.has_frame((self.table / 4096 + k) as u64)
    }

    /// Sets every word of the table's sixteen frames to zero.
    pub fn clean_kpage_table(&self, m: &mut PhysMemory)
        requires
            self.in_memory(*old(m)),
            self.table / 4096 + 16 <= u64::MAX,
        ensures
            final(m).base_ppn == old(m).base_ppn,
            final(m).words@.len() == old(m).words@.len(),
            forall|k: int, j: int| 0 <= k < 16 && 0 <= j < 512 ==> #[trigger] final(m).word((self.table / 4096 + k) as u64, j) == 0,
            forall|q: u64, j: int|
                #![trigger final(m).word(q, j)]
                old(m).has_frame(q) && 0 <= j < 512 && !(self.table / 4096 <= q < self.table / 4096 + 16) ==> final(m).word(q, j)
                    == old(m).word(q, j),
    {
        let base = self.table / 4096;
        let mut k: u64 = 0;
        while k < 16
            invariant
                k <= 16,
                base == self.table / 4096,
                self.in_memory(*old(m)),
                base + 16 <= u64::MAX,
                m.base_ppn == old(m).base_ppn,
                m.words@.len() == old(m).words@.len(),
                forall|k2: int, j: int| 0 <= k2 < k && 0 <= j < 512 ==> #[trigger] m.word((base + k2) as u64, j) == 0,
                forall|q: u64, j: int|
                    #![trigger m.word(q, j)]
                    old(m).has_frame(q) && 0 <= j < 512 && !(base <= q < base + k) ==> m.word(q, j) == old(m).word(q, j),
            decreases 16 - k,
        {
            let ghost before = *m;
            proof {
                assert(old(m).has_frame((base + k) as u64));
            }
            crate::mm::page_table::clear_frame_words(m, base + k);
            proof {
                assert forall|k2: int, j: int| 0 <= k2 < k + 1 && 0 <= j < 512 implies #[trigger] m.word((base + k2) as u64, j) == 0 by {
                    if k2 < k {
                        assert(before.word((base + k2) as u64, j) == 0);
                        assert(old(m).has_frame((base + k2) as u64));
                    }
                }
            }
            k = k + 1;
        }
    }

    /// Takes the first unused leaf table and returns its number.
    fn alloc_l3_table(&mut self) -> (r: usize)
        requires
            exists|i: int| 0 <= i < 11 && old(self).usage[i] == 1,
        ensures
            r < 11,
            old(self).usage[r as int] == 1,
            forall|i: int| 0 <= i < r ==> old(self).usage[i] != 1,
            final(self).usage@ == old(self).usage@.update(r as int, 0),
            final(self).table == old(self).table,
    {
        let mut i: usize = 0;
        while i < RISV_THIRD_TABLE_NUM
            invariant
                i <= 11,
                *self == *old(self),
                forall|k: int| 0 <= k < i ==> self.usage[k] != 1,
                exists|k: int| 0 <= k < 11 && self.usage[k] == 1,
            decreases 11 - i,
        {
            if self.usage[i] == 1 {
                self.usage[i] = 0;
                return i;
            }
            i = i + 1;
        }
        0
    }

    /// The physical address of the second-level table that `vpn` uses:
    /// table `idx2 + 1` after the root.
    pub open spec fn second_of(&self, vpn: u64) -> u64 {
        (self.table + 4096 * idx(vpn, 2) + 4096) as u64
    }

    /// Points the root entry of `v_start` at its second-level table (unless
    /// valid already) and returns that table's address.
    pub fn set_l1_pointer_entry(&self, m: &mut PhysMemory, v_start: VirtualAddr) -> (r: u64)
        requires
            self.table % 4096 == 0,
            self.table + 4096 * 513 < 0x100_0000_0000_0000,
            old(m).has_frame(self.table / 4096),
        ensures
            r == self.second_of(v_start.0 >> 12u64),
            entry_set(
                *old(m),
                *final(m),
                self.table / 4096,
                idx(v_start.0 >> 12u64, 2),
                pte_of(r / 4096, 1u8 | 1u8),
            ),
    {
        let vpn = VirtPageNum::from(v_start);
        let vidx = vpn.get_table_indexs();
        let second: u64 = self.table + 4096 * vidx[2] + 4096;
        proof {
            crate::mm::address::lemma_masks(second);
            crate::mm::address::lemma_page_unshift(second);
        }
        set_n_level_entry(m, self.table, vpn, PhysPageNum::from(PhysAddr::from(second)), RisvPTEFlags { bits: PTE_V }, 2);
        second
    }

    /// Makes sure the second-level entry of `v_start` points at a leaf
    /// table, taking the first unused one when it is not valid, and
    /// returns the leaf table's address.
    pub fn set_l2_pointer_entry(&mut self, m: &mut PhysMemory, v_start: VirtualAddr) -> (r: u64)
        requires
            old(self).table % 4096 == 0,
            old(self).table + 4096 * 513 < 0x100_0000_0000_0000,
            old(m).has_frame(old(self).table / 4096),
            old(m).has_frame(old(self).second_of(v_start.0 >> 12u64) / 4096),
            !pte_valid(old(m).word(old(self).second_of(v_start.0 >> 12u64) / 4096, idx(v_start.0 >> 12u64, 1)))
                ==> exists|i: int| 0 <= i < 11 && old(self).usage[i] == 1,
        ensures
            l2_pointer_post(*old(self), *final(self), *old(m), *final(m), v_start.0 >> 12u64, r),
    {
        let second = self.set_l1_pointer_entry(m, v_start);
        let vpn = VirtPageNum::from(v_start);
        let vidx = vpn.get_table_indexs();
        let ghost m1 = *m;
        proof {
            lemma_write_word_effect_any(*old(m), m1, self.table / 4096, idx(vpn.0, 2));
        }
        let l2_entry = PageTableEntry::from(m.read_word(second / 4096, vidx[1] as usize));
        if l2_entry.is_valid() {
            let p = l2_entry.to_ppn();
            let addr = PhysAddr::from(p).0;
            proof {
                crate::mm::address::lemma_page_shift(p.0);
            }
            addr
        } else {
            let l3_table_index = self.alloc_l3_table();
            let l3_table_ptr: u64 = self.table + 4096 * (1 + 4 + l3_table_index as u64);
            proof {
                crate::mm::address::lemma_masks(l3_table_ptr);
                crate::mm::address::lemma_page_unshift(l3_table_ptr);
            }
            set_n_level_entry(m, second, vpn, PhysPageNum::from(PhysAddr::from(l3_table_ptr)), RisvPTEFlags { bits: PTE_V }, 1);
            l3_table_ptr
        }
    }

    /// Maps the 4 KiB pages from `v_start` up to `v_end` one to one onto
    /// the pages from `p_start`, with `flags`, in the leaf table of
    /// `v_start` (at the pages' leaf indices, around the table), leaving
    /// entries that are valid already; nothing for an empty range.
    #[verifier::rlimit(60)]
    #[verifier::spinoff_prover]
    pub fn set_l3_page_entry(
        &mut self,
        m: &mut PhysMemory,
        v_start: VirtualAddr,
        v_end: VirtualAddr,
        p_start: PhysAddr,
        flags: RisvPTEFlags,
    )
        requires
            v_end.0 <= 0x80_0000_0000,
            v_end.0 > v_start.0 ==> l3_pointer_ready(*old(self), *old(m), v_start.0 / 4096),
            v_end.0 > v_start.0 ==> p_start.0 + (v_end.0 - v_start.0) <= u64::MAX,
        ensures
            l3_entries_post(*old(self), *final(self), *old(m), *final(m), v_start.0, v_end.0, p_start.0, flags.bits),
    {
        if v_end.0 > v_start.0 {
            proof {
                crate::mm::address::lemma_page_unshift(v_start.0);
                assert(old(m).has_frame((self.table / 4096 + 0) as u64));
            }
            let l3_table_ptr = self.set_l2_pointer_entry(m, v_start);
            let ghost m1 = *m;
            let ghost t1 = *self;
            proof {
                lemma_l2_pointer_frame(*old(self), t1, *old(m), m1, v_start.0 / 4096, l3_table_ptr);
            }
            let index: u64 = (v_end.0 - v_start.0) / 4096;
            let mut i: u64 = 0;
            while i < index
                invariant
                    i <= index,
                    index == (v_end.0 - v_start.0) / 4096,
                    v_end.0 > v_start.0,
                    v_end.0 <= 0x80_0000_0000,
                    p_start.0 + (v_end.0 - v_start.0) <= u64::MAX,
                    l3_table_ptr % 4096 == 0,
                    m1.has_frame(l3_table_ptr / 4096),
                    *self == t1,
                    table_filled(
                        m1,
                        *m,
                        l3_table_ptr / 4096,
                        (v_start.0 / 4096) as int % 512,
                        i as int,
                        p_start.0,
                        4096,
                        flags.bits,
                    ),
                decreases index - i,
            {
                let v_addr: u64 = v_start.0 + i * 4096;
                let p_addr: u64 = p_start.0 + i * 4096;
                let vpn = VirtPageNum::from(VirtualAddr::from(v_addr));
                let ppn = PhysPageNum::from(PhysAddr::from(p_addr));
                let ghost a = *m;
                proof {
                    crate::mm::address::lemma_masks(v_addr);
                    crate::mm::address::lemma_masks(p_addr);
                    crate::mm::address::lemma_page_unshift(v_addr);
                    crate::mm::address::lemma_page_unshift(p_addr % 0x100_0000_0000_0000);
                    vstd::arithmetic::div_mod::lemma_fundamental_div_mod(v_start.0 as int, 4096);
                    vstd::arithmetic::div_mod::lemma_fundamental_div_mod_converse(
                        v_addr as int,
                        4096,
                        v_start.0 / 4096 + i,
                        (v_start.0 % 4096) as int,
                    );
                    crate::mm::page_table::lemma_idx_arith(vpn.0);
                    vstd::arithmetic::div_mod::lemma_add_mod_noop_right(i as int, (v_start.0 / 4096) as int, 512);
                    assert(a.has_frame(l3_table_ptr / 4096));
                }
                set_n_level_entry(m, l3_table_ptr, vpn, ppn, flags, 0);
                proof {
                    assert(idx(vpn.0, 0) == ((v_start.0 / 4096) as int % 512 + i) % 512);
                    assert(ppn.0 == pa_page(p_start.0 + i * 4096));
                    lemma_fill_step(
                        m1,
                        a,
                        *m,
                        l3_table_ptr / 4096,
                        (v_start.0 / 4096) as int % 512,
                        i as int,
                        p_start.0,
                        4096,
                        flags.bits,
                    );
                }
                i = i + 1;
            }
        }
    }

    /// Maps the 2 MiB blocks from `v_start` up to `v_end` one to one onto
    /// the blocks from `p_start`, with `flags`, in the second-level table
    /// of `v_start` (at the blocks' indices, around the table), leaving
    /// entries that are valid already; nothing for an empty range.
    #[verifier::rlimit(60)]
    #[verifier::spinoff_prover]
    pub fn set_l2_block_entry(
        &self,
        m: &mut PhysMemory,
        v_start: VirtualAddr,
        v_end: VirtualAddr,
        p_start: PhysAddr,
        flags: RisvPTEFlags,
    )
        requires
            v_end.0 < 0x80_0000_0000,
            v_end.0 > v_start.0 ==> {
                &&& self.in_memory(*old(m))
                &&& self.table + 4096 * 513 < 0x100_0000_0000_0000
                &&& old(m).has_frame(self.second_of(v_start.0 / 4096) / 4096)
                &&& p_start.0 + (v_end.0 - v_start.0) <= u64::MAX
            },
        ensures
            blocks_post(*self, *old(m), *final(m), v_start.0, v_end.0, p_start.0, flags.bits),
    {
        if v_end.0 > v_start.0 {
            proof {
                crate::mm::address::lemma_page_unshift(v_start.0);
                assert(old(m).has_frame((self.table / 4096 + 0) as u64));
            }
            let second_table_ptr = self.set_l1_pointer_entry(m, v_start);
            let ghost m1 = *m;
            proof {
                lemma_idx_bounds(v_start.0 / 4096);
                lemma_write_word_effect_any(*old(m), m1, self.table / 4096, idx(v_start.0 / 4096, 2));
                vstd::arithmetic::div_mod::lemma_fundamental_div_mod_converse(
                    second_table_ptr as int,
                    4096,
                    (second_table_ptr / 4096) as int,
                    0,
                );
            }
            let index: u64 = (v_end.0 - v_start.0) / 0x20_0000;
            let mut i: u64 = 0;
            while i < index
                invariant
                    i <= index,
                    index == (v_end.0 - v_start.0) / 0x20_0000,
                    v_end.0 > v_start.0,
                    v_end.0 < 0x80_0000_0000,
                    p_start.0 + (v_end.0 - v_start.0) <= u64::MAX,
                    second_table_ptr % 4096 == 0,
                    second_table_ptr == self.second_of(v_start.0 / 4096),
                    m1.has_frame(second_table_ptr / 4096),
                    table_filled(
                        m1,
                        *m,
                        second_table_ptr / 4096,
                        (v_start.0 / 0x20_0000) as int % 512,
                        i as int,
                        p_start.0,
                        0x20_0000,
                        flags.bits,
                    ),
                decreases index - i,
            {
                let v_addr: u64 = v_start.0 + i * 0x20_0000;
                let p_addr: u64 = p_start.0 + i * 0x20_0000;
                let vpn = VirtPageNum::from(VirtualAddr::from(v_addr));
                let ppn = PhysPageNum::from(PhysAddr::from(p_addr));
                let ghost a = *m;
                proof {
                    crate::mm::address::lemma_masks(v_addr);
                    crate::mm::address::lemma_masks(p_addr);
                    crate::mm::address::lemma_page_unshift(v_addr);
                    crate::mm::address::lemma_page_unshift(p_addr % 0x100_0000_0000_0000);
                    vstd::arithmetic::div_mod::lemma_fundamental_div_mod(v_start.0 as int, 0x20_0000);
                    vstd::arithmetic::div_mod::lemma_fundamental_div_mod_converse(
                        v_addr as int,
                        0x20_0000,
                        v_start.0 / 0x20_0000 + i,
                        (v_start.0 % 0x20_0000) as int,
                    );
                    vstd::arithmetic::div_mod::lemma_div_denominator(v_addr as int, 4096, 512);
                    crate::mm::page_table::lemma_idx_arith(vpn.0);
                    vstd::arithmetic::div_mod::lemma_add_mod_noop_right(i as int, (v_start.0 / 0x20_0000) as int, 512);
                    assert(a.has_frame(second_table_ptr / 4096));
                }
                set_n_level_entry(m, second_table_ptr, vpn, ppn, flags, 1);
                proof {
                    assert(idx(vpn.0, 1) == ((v_start.0 / 0x20_0000) as int % 512 + i) % 512);
                    assert(ppn.0 == pa_page(p_start.0 + i * 0x20_0000));
                    lemma_fill_step(
                        m1,
                        a,
                        *m,
                        second_table_ptr / 4096,
                        (v_start.0 / 0x20_0000) as int % 512,
                        i as int,
                        p_start.0,
                        0x20_0000,
                        flags.bits,
                    );
                }
                i = i + 1;
            }
        }
    }

    /// Clears the second-level entries of the 2 MiB blocks from `v_start`
    /// up to `v_end`, from the entry of `v_start` on; nothing for an empty
    /// range.
    pub fn clear_blocks_area(&self, m: &mut PhysMemory, v_start: VirtualAddr, v_end: VirtualAddr)
        requires
            v_end.0 > v_start.0 ==> {
                &&& self.table + 4096 * 513 < 0x100_0000_0000_0000
                &&& old(m).has_frame(self.second_of(v_start.0 / 4096) / 4096)
                &&& idx(v_start.0 / 4096, 1) + (v_end.0 - v_start.0) / 0x20_0000 <= 512
            },
        ensures
            v_end.0 <= v_start.0 ==> *final(m) == *old(m),
            v_end.0 > v_start.0 ==> words_zeroed(
                *old(m),
                *final(m),
                self.second_of(v_start.0 / 4096) / 4096,
                idx(v_start.0 / 4096, 1),
                ((v_end.0 - v_start.0) / 0x20_0000) as int,
            ),
    {
        if v_end.0 > v_start.0 {
            proof {
                crate::mm::address::lemma_page_unshift(v_start.0);
            }
            let vpn = VirtPageNum::from(v_start);
            let vidx = vpn.get_table_indexs();
            let second_table_ptr: u64 = self.table + 4096 * vidx[2] + 4096;
            let index: u64 = (v_end.0 - v_start.0) / 0x20_0000;
            zero_words(m, second_table_ptr / 4096, vidx[1], index);
        }
    }

    /// Clears the leaf entries of the 4 KiB pages from `v_start` up to
    /// `v_end`, from the entry of `v_start` on, in the leaf table that the
    /// second-level entry of `v_start` points at; nothing for an empty
    /// range.
    pub fn clear_pages_area(&self, m: &mut PhysMemory, v_start: VirtualAddr, v_end: VirtualAddr)
        requires
            v_end.0 > v_start.0 ==> {
                let second = self.second_of(v_start.0 / 4096) / 4096;
                &&& self.table + 4096 * 513 < 0x100_0000_0000_0000
                &&& old(m).has_frame(second)
                &&& old(m).has_frame(crate::mm::page_table::pte_ppn(old(m).word(second, idx(v_start.0 / 4096, 1))))
                &&& idx(v_start.0 / 4096, 0) + (v_end.0 - v_start.0) / 4096 <= 512
            },
        ensures
            v_end.0 <= v_start.0 ==> *final(m) == *old(m),
            v_end.0 > v_start.0 ==> words_zeroed(
                *old(m),
                *final(m),
                crate::mm::page_table::pte_ppn(
                    old(m).word(self.second_of(v_start.0 / 4096) / 4096, idx(v_start.0 / 4096, 1)),
                ),
                idx(v_start.0 / 4096, 0),
                ((v_end.0 - v_start.0) / 4096) as int,
            ),
    {
        if v_end.0 > v_start.0 {
            proof {
                crate::mm::address::lemma_page_unshift(v_start.0);
            }
            let vpn = VirtPageNum::from(v_start);
            let vidx = vpn.get_table_indexs();
            let second_table_ptr: u64 = self.table + 4096 * vidx[2] + 4096;
            let second_entry = PageTableEntry::from(m.read_word(second_table_ptr / 4096, vidx[1] as usize));
            let third_table_ppn = second_entry.to_ppn();
            let index: u64 = (v_end.0 - v_start.0) / 4096;
            zero_words(m, third_table_ppn.0, vidx[0], index);
        }
    }

    /// Whether the table's sixteen frames are part of memory, its root page
    /// aligned and its tables' addresses small enough.
    pub fn in_memory_exec(&self, m: &PhysMemory) -> (r: bool)
        ensures
            r == (self.in_memory(*m) && self.table + 4096 * 513 < 0x100_0000_0000_0000),
    {
        if self.table % 4096 != 0 || self.table >= 0x100_0000_0000_0000 - 4096 * 513 {
            return false;
        }
        let base = self.table / 4096;
        let mut k: u64 = 0;
        while k < 16
            invariant
                k <= 16,
                base == self.table / 4096,
                self.table < 0x100_0000_0000_0000 - 4096 * 513,
                forall|k2: int| 0 <= k2 < k ==> #[trigger] m.has_frame((base + k2) as u64),
            decreases 16 - k,
        {
            if !m.contains_frame(base + k) {
                return false;
            }
            k = k + 1;
        }
        true
    }

    /// Whether `set_l2_pointer_entry` can run for page `vpn` here.
    pub fn l3_ready_exec(&self, m: &PhysMemory, vpn: u64) -> (r: bool)
        ensures
            r == l3_pointer_ready(*self, *m, vpn),
    {
        if !self.in_memory_exec(m) {
            return false;
        }
        let vidx = VirtPageNum(vpn).get_table_indexs();
        let second: u64 = self.table + 4096 * vidx[2] + 4096;
        let sf = second / 4096;
        if !m.contains_frame(sf) {
            return false;
        }
        let e = PageTableEntry::from(m.read_word(sf, vidx[1] as usize));
        if e.is_valid() {
            m.contains_frame(e.to_ppn().0)
        } else {
            self.has_unused()
        }
    }

    /// Whether a leaf table is unused.
    fn has_unused(&self) -> (r: bool)
        ensures
            r == exists|i: int| 0 <= i < 11 && self.usage[i] == 1,
    {
        let mut i: usize = 0;
        while i < RISV_THIRD_TABLE_NUM
            invariant
                i <= 11,
                forall|k: int| 0 <= k < i ==> self.usage[k] != 1,
            decreases 11 - i,
        {
            if self.usage[i] == 1 {
                proof {
                    assert(0 <= i < 11 && self.usage[i as int] == 1);
                }
                return true;
            }
            i = i + 1;
        }
        false
    }
}

/// The page range and block range of area `a` for the identity mapping:
/// its start and end rounded to pages, and to blocks inward.
pub open spec fn normal_bounds(a: MemoryStaticArea) -> (u64, u64, u64, u64) {
    let s = a.vaddr_start.0 as nat;
    let e = a.vaddr_end.0 as nat;
    (
        align_down(s, size_4k()) as u64,
        align_up(e, size_4k()) as u64,
        align_up(s, size_2m()) as u64,
        align_down(e, size_2m()) as u64,
    )
}

/// What `map_area_normal` does when it succeeds: the pages below and above
/// the blocks the area spans are mapped to themselves through leaf tables,
/// and the blocks through the second-level table; or, with no whole block,
/// all its pages through a leaf table.
pub open spec fn normal_mapped(
    a: MemoryStaticArea,
    ta: StaticPageTable,
    tb: StaticPageTable,
    ma: PhysMemory,
    mb: PhysMemory,
) -> bool {
    let (rs, re, sb, eb) = normal_bounds(a);
    let f = a.perm.bits;
    if sb < eb {
        exists|t1: StaticPageTable, m1: PhysMemory, m2: PhysMemory|
            #![trigger l3_entries_post(ta, t1, ma, m1, rs, sb, rs, f), blocks_post(t1, m1, m2, sb, eb, sb, f)]
            l3_entries_post(ta, t1, ma, m1, rs, sb, rs, f) && blocks_post(t1, m1, m2, sb, eb, sb, f)
                && l3_entries_post(t1, tb, m2, mb, eb, re, eb, f)
    } else {
        l3_entries_post(ta, tb, ma, mb, rs, re, rs, f)
    }
}

/// What clearing the pages of `vs..ve` does: nothing for an empty range;
/// else the leaf entries from that of `vs` on are zero.
pub open spec fn pages_cleared(t: StaticPageTable, ma: PhysMemory, mb: PhysMemory, vs: u64, ve: u64) -> bool {
    &&& ve <= vs ==> mb == ma
    &&& ve > vs ==> words_zeroed(
        ma,
        mb,
        crate::mm::page_table::pte_ppn(ma.word(t.second_of(vs / 4096) / 4096, idx(vs / 4096, 1))),
        idx(vs / 4096, 0),
        ((ve - vs) / 4096) as int,
    )
}

/// What `unmap_area_normal` does when it succeeds, as `normal_mapped` in
/// reverse: the entries of the pages and blocks are cleared.
pub open spec fn normal_unmapped(a: MemoryStaticArea, t: StaticPageTable, ma: PhysMemory, mb: PhysMemory) -> bool {
    let (rs, re, sb, eb) = normal_bounds(a);
    if sb < eb {
        exists|m1: PhysMemory, m2: PhysMemory|
            #![trigger pages_cleared(t, ma, m1, rs, sb), pages_cleared(t, m2, mb, eb, re)]
            pages_cleared(t, ma, m1, rs, sb) && words_zeroed(
                m1,
                m2,
                t.second_of(sb / 4096) / 4096,
                idx(sb / 4096, 1),
                ((eb - sb) / 0x20_0000) as int,
            ) && pages_cleared(t, m2, mb, eb, re)
    } else {
        pages_cleared(t, ma, mb, rs, re)
    }
}

/// Whether the pages of `vs..ve` can be mapped: there are none, or the
/// leaf table of `vs` can be made ready.
pub open spec fn pages_ready(t: StaticPageTable, m: PhysMemory, vs: u64, ve: u64) -> bool {
    ve <= vs || l3_pointer_ready(t, m, vs / 4096)
}

/// Whether the blocks from `sb` on can be mapped: the table lies below
/// the address limit, its frames are part of memory, and so is the
/// second-level table of `sb`.
pub open spec fn blocks_ready(t: StaticPageTable, m: PhysMemory, sb: u64) -> bool {
    &&& t.table < 0x100_0000_0000_0000 - 4096 * 513
    &&& t.in_memory(m)
    &&& m.has_frame(t.second_of(sb / 4096) / 4096)
}

/// Where `map_area_normal` stops: a step finds its tables not ready, in
/// the state the steps before it left.
pub open spec fn normal_map_stops(a: MemoryStaticArea, t0: StaticPageTable, m0: PhysMemory) -> bool {
    let (rs, re, sb, eb) = normal_bounds(a);
    let f = a.perm.bits;
    if sb < eb {
        ||| !pages_ready(t0, m0, rs, sb)
        ||| exists|t1: StaticPageTable, m1: PhysMemory|
            #![trigger l3_entries_post(t0, t1, m0, m1, rs, sb, rs, f)]
            l3_entries_post(t0, t1, m0, m1, rs, sb, rs, f) && (!blocks_ready(t1, m1, sb) || exists|m2: PhysMemory|
                #![trigger blocks_post(t1, m1, m2, sb, eb, sb, f)]
                blocks_post(t1, m1, m2, sb, eb, sb, f) && !pages_ready(t1, m2, eb, re))
    } else {
        !pages_ready(t0, m0, rs, re)
    }
}

/// Whether the leaf entries of the pages of `vs..ve` can be cleared: there
/// are none, or the table lies below the address limit, the second-level
/// table and the leaf table of `vs` are part of memory, and the entries
/// lie in that leaf table.
pub open spec fn pages_clearable(t: StaticPageTable, m: PhysMemory, vs: u64, ve: u64) -> bool {
    let second = t.second_of(vs / 4096) / 4096;
    ||| ve <= vs
    ||| {
        &&& t.table < 0x100_0000_0000_0000 - 4096 * 513
        &&& m.has_frame(second)
        &&& m.has_frame(crate::mm::page_table::pte_ppn(m.word(second, idx(vs / 4096, 1))))
        &&& idx(vs / 4096, 0) + (ve - vs) / 4096 <= 512
    }
}

/// Whether the block entries of `sb..eb` can be cleared: the table lies
/// below the address limit, the second-level table of `sb` is part of
/// memory, and the entries lie in it.
pub open spec fn blocks_clearable(t: StaticPageTable, m: PhysMemory, sb: u64, eb: u64) -> bool {
    &&& t.table < 0x100_0000_0000_0000 - 4096 * 513
    &&& m.has_frame(t.second_of(sb / 4096) / 4096)
    &&& idx(sb / 4096, 1) + (eb - sb) / 0x20_0000 <= 512
}

/// Where `unmap_area_normal` stops: a step finds its entries not
/// clearable, in the state the steps before it left.
pub open spec fn normal_unmap_stops(a: MemoryStaticArea, t: StaticPageTable, m0: PhysMemory) -> bool {
    let (rs, re, sb, eb) = normal_bounds(a);
    if sb < eb {
        ||| !pages_clearable(t, m0, rs, sb)
        ||| exists|m1: PhysMemory|
            #![trigger pages_cleared(t, m0, m1, rs, sb)]
            pages_cleared(t, m0, m1, rs, sb) && (!blocks_clearable(t, m1, sb, eb) || exists|m2: PhysMemory|
                #![trigger words_zeroed(m1, m2, t.second_of(sb / 4096) / 4096, idx(sb / 4096, 1), ((eb - sb) / 0x20_0000) as int)]
                words_zeroed(m1, m2, t.second_of(sb / 4096) / 4096, idx(sb / 4096, 1), ((eb - sb) / 0x20_0000) as int)
                    && !pages_clearable(t, m2, eb, re))
    } else {
        !pages_clearable(t, m0, rs, re)
    }
}

/// The three steps of `map_area_normal` over an area that spans blocks
/// make its identity mapping.
proof fn lemma_normal_mapped_intro(
    a: MemoryStaticArea,
    ta: StaticPageTable,
    t1: StaticPageTable,
    tb: StaticPageTable,
    ma: PhysMemory,
    m1: PhysMemory,
    m2: PhysMemory,
    mb: PhysMemory,
)
    requires
        normal_bounds(a).2 < normal_bounds(a).3,
        l3_entries_post(ta, t1, ma, m1, normal_bounds(a).0, normal_bounds(a).2, normal_bounds(a).0, a.perm.bits),
        blocks_post(t1, m1, m2, normal_bounds(a).2, normal_bounds(a).3, normal_bounds(a).2, a.perm.bits),
        l3_entries_post(t1, tb, m2, mb, normal_bounds(a).3, normal_bounds(a).1, normal_bounds(a).3, a.perm.bits),
    ensures
        normal_mapped(a, ta, tb, ma, mb),
{
}

/// The three steps of `unmap_area_normal` over an area that spans blocks
/// clear its identity mapping.
proof fn lemma_normal_unmapped_intro(a: MemoryStaticArea, t: StaticPageTable, ma: PhysMemory, m1: PhysMemory, m2: PhysMemory, mb: PhysMemory)
    requires
        normal_bounds(a).2 < normal_bounds(a).3,
        pages_cleared(t, ma, m1, normal_bounds(a).0, normal_bounds(a).2),
        words_zeroed(
            m1,
            m2,
            t.second_of(normal_bounds(a).2 / 4096) / 4096,
            idx(normal_bounds(a).2 / 4096, 1),
            ((normal_bounds(a).3 - normal_bounds(a).2) / 0x20_0000) as int,
        ),
        pages_cleared(t, m2, mb, normal_bounds(a).3, normal_bounds(a).1),
    ensures
        normal_unmapped(a, t, ma, mb),
{
}

impl MemoryStaticArea {
    /// Maps the pages of `vs..ve` to themselves with `flags`, after checking
    /// that the leaf table of `vs` can be made ready.
    fn map_pages_checked(table: &mut StaticPageTable, m: &mut PhysMemory, vs: u64, ve: u64, flags: RisvPTEFlags) -> (r: bool)
        requires
            ve <= 0x80_0000_0000,
        ensures
            r ==> l3_entries_post(*old(table), *final(table), *old(m), *final(m), vs, ve, vs, flags.bits),
            r == pages_ready(*old(table), *old(m), vs, ve),
    {
        if ve > vs && !table.l3_ready_exec(m, vs / 4096) {
            return false;
        }
        proof {
            crate::mm::address::lemma_masks(vs);
        }
        table.set_l3_page_entry(m, VirtualAddr(vs), VirtualAddr(ve), PhysAddr::from(vs), flags);
        true
    }

    /// Maps the area to itself (virtual address equal to physical address)
    /// with its permission in the static table: 4 KiB pages below and above
    /// the 2 MiB blocks it spans, the blocks as blocks. False where it
    /// cannot go on: a table it needs is not part of memory, or no
    /// leaf table is left.
    #[verifier::rlimit(60)]
    #[verifier::spinoff_prover]
    pub fn map_area_normal(&self, table: &mut StaticPageTable, m: &mut PhysMemory) -> (r: bool)
        requires
            self.vaddr_start.0 < 0x80_0000_0000,
            self.vaddr_end.0 < 0x80_0000_0000,
        ensures
            r ==> normal_mapped(*self, *old(table), *final(table), *old(m), *final(m)),
            !r ==> normal_map_stops(*self, *old(table), *old(m)),
    {
        let addr_start = self.vaddr_start.round_down_in_4k();
        let addr_end = self.vaddr_end.round_up_in_4k();
        let addr_start_block = self.vaddr_start.round_up_in_2m();
        let addr_end_block = self.vaddr_end.round_down_in_2m();
        let pte_flags = RisvPTEFlags::from_bits(self.perm.bits).unwrap();
        if addr_start_block.0 < addr_end_block.0 {
            let ghost t0 = *table;
            let ghost m0 = *m;
            if !Self::map_pages_checked(table, m, addr_start.0, addr_start_block.0, pte_flags) {
                return false;
            }
            let ghost t1 = *table;
            let ghost m1 = *m;
            if table.table >= 0x100_0000_0000_0000 - 4096 * 513 {
                return false;
            }
            let sf = (table.table + 4096 * VirtPageNum(addr_start_block.0 / 4096).get_table_indexs()[2] + 4096) / 4096;
            if !(table.in_memory_exec(m) && m.contains_frame(sf)) {
                return false;
            }
            proof {
                crate::mm::address::lemma_masks(addr_start_block.0);
            }
            table.set_l2_block_entry(m, addr_start_block, addr_end_block, PhysAddr::from(addr_start_block.0), pte_flags);
            let ghost m2 = *m;
            if !Self::map_pages_checked(table, m, addr_end_block.0, addr_end.0, pte_flags) {
                return false;
            }
            proof {
                assert(normal_bounds(*self) == (addr_start.0, addr_end.0, addr_start_block.0, addr_end_block.0));
                lemma_normal_mapped_intro(*self, t0, t1, *table, m0, m1, m2, *m);
            }
            true
        } else {
            assert(normal_bounds(*self) == (addr_start.0, addr_end.0, addr_start_block.0, addr_end_block.0));
            Self::map_pages_checked(table, m, addr_start.0, addr_end.0, pte_flags)
        }
    }

    /// Clears the leaf entries of the pages of `vs..ve` (from the entry of
    /// `vs` on) after checking that the tables are part of memory and the
    /// entries lie in one table.
    fn clear_pages_checked(table: &StaticPageTable, m: &mut PhysMemory, vs: u64, ve: u64) -> (r: bool)
        ensures
            r ==> pages_cleared(*table, *old(m), *final(m), vs, ve),
            r == pages_clearable(*table, *old(m), vs, ve),
    {
        if ve > vs {
            if table.table >= 0x100_0000_0000_0000 - 4096 * 513 {
                return false;
            }
            proof {
                crate::mm::address::lemma_page_unshift(vs);
            }
            let vidx = VirtPageNum(vs / 4096).get_table_indexs();
            let sf = (table.table + 4096 * vidx[2] + 4096) / 4096;
            if !m.contains_frame(sf) {
                return false;
            }
            let third = PageTableEntry::from(m.read_word(sf, vidx[1] as usize)).to_ppn().0;
            if !m.contains_frame(third) || vidx[0] + (ve - vs) / 4096 > 512 {
                return false;
            }
        }
        table.clear_pages_area(m, VirtualAddr(vs), VirtualAddr(ve));
        true
    }

    /// Clears the area's entries in the static table, as `map_area_normal`
    /// made them: its pages below and above the blocks it spans, and the
    /// blocks. False where it cannot go on: a table is not part of
    /// memory, or a range of entries runs past its table.
    #[verifier::rlimit(60)]
    #[verifier::spinoff_prover]
    pub fn unmap_area_normal(&self, table: &StaticPageTable, m: &mut PhysMemory) -> (r: bool)
        requires
            self.vaddr_start.0 < 0x80_0000_0000,
            self.vaddr_end.0 < 0x80_0000_0000,
        ensures
            r ==> normal_unmapped(*self, *table, *old(m), *final(m)),
            !r ==> normal_unmap_stops(*self, *table, *old(m)),
    {
        let addr_start = self.vaddr_start.round_down_in_4k();
        let addr_end = self.vaddr_end.round_up_in_4k();
        let addr_start_block = self.vaddr_start.round_up_in_2m();
        let addr_end_block = self.vaddr_end.round_down_in_2m();
        if addr_start_block.0 < addr_end_block.0 {
            let ghost m0 = *m;
            if !Self::clear_pages_checked(table, m, addr_start.0, addr_start_block.0) {
                return false;
            }
            let ghost m1 = *m;
            if table.table >= 0x100_0000_0000_0000 - 4096 * 513 {
                return false;
            }
            proof {
                crate::mm::address::lemma_page_unshift(addr_start_block.0);
            }
            let vidx = VirtPageNum(addr_start_block.0 / 4096).get_table_indexs();
            let sf = (table.table + 4096 * vidx[2] + 4096) / 4096;
            if !m.contains_frame(sf) || vidx[1] + (addr_end_block.0 - addr_start_block.0) / 0x20_0000 > 512 {
                return false;
            }
            table.clear_blocks_area(m, addr_start_block, addr_end_block);
            let ghost m2 = *m;
            if !Self::clear_pages_checked(table, m, addr_end_block.0, addr_end.0) {
                return false;
            }
            proof {
                assert(normal_bounds(*self) == (addr_start.0, addr_end.0, addr_start_block.0, addr_end_block.0));
                lemma_normal_unmapped_intro(*self, *table, m0, m1, m2, *m);
            }
            true
        } else {
            assert(normal_bounds(*self) == (addr_start.0, addr_end.0, addr_start_block.0, addr_end_block.0));
            Self::clear_pages_checked(table, m, addr_start.0, addr_end.0)
        }
    }
}

} // verus!
