//! Sv39 page tables over a model of physical memory.
//!
//! Physical memory is held a 64-bit word at a time; a frame is 512 words.
//! A page-table entry keeps the physical page number in bits 10..54 and
//! its flags in bits 0..8.
use vstd::prelude::*;
use crate::mm::address::{PhysPageNum, VirtPageNum, vpn_index, SV39_PPN_MASKS};
use crate::mm::frame_allocator::{FrameWrapper, StackFrameAllocator, lemma_alloc_takes_free_frame};

verus! {

/// Valid.
pub const PTE_V: u8 = 1;
/// Readable.
pub const PTE_R: u8 = 2;
/// Writable.
pub const PTE_W: u8 = 4;
/// Executable.
pub const PTE_X: u8 = 8;
/// Reachable from user mode.
pub const PTE_U: u8 = 16;
/// Global.
pub const PTE_G: u8 = 32;
/// Accessed.
pub const PTE_A: u8 = 64;
/// Dirty.
pub const PTE_D: u8 = 128;

/// The flags of a page-table entry.
#[derive(Copy, Clone, PartialEq, Eq, Structural)]
pub struct RisvPTEFlags {
    pub bits: u8,
}

impl RisvPTEFlags {
    /// The flags of `bits`; every bit is a flag.
    pub fn from_bits(bits: u8) -> (r: Option<Self>)
        ensures
            r == Some(RisvPTEFlags { bits }),
    {
        Some(RisvPTEFlags { bits })
    }

    /// No flag.
    pub fn empty() -> (r: Self)
        ensures
            r.bits == 0,
    {
        RisvPTEFlags { bits: 0 }
    }

    /// The flags of both.
    pub fn union(self, other: Self) -> (r: Self)
        ensures
            r.bits == self.bits | other.bits,
    {
        RisvPTEFlags { bits: self.bits | other.bits }
    }
}

/// Whether entry `e` is valid.
pub open spec fn pte_valid(e: u64) -> bool {
    e & 1 == 1
}

/// The physical page number that entry `e` holds.
pub open spec fn pte_ppn(e: u64) -> u64 {
    (e >> 10u64) & 0x0000_0FFF_FFFF_FFFF
}

/// The entry for page `ppn` with flags `flags`.
pub open spec fn pte_of(ppn: u64, flags: u8) -> u64 {
    (ppn << 10u64) | (flags as u64)
}

/// An entry made of a page number and flags gives both back.
pub proof fn lemma_pte_round_trip(ppn: u64, flags: u8)
    requires
        ppn < 0x1000_0000_0000,
    ensures
        pte_ppn(pte_of(ppn, flags)) == ppn,
        pte_valid(pte_of(ppn, flags)) == (flags & 1 == 1),
        pte_of(ppn, flags) as u8 == flags,
{
    assert(ppn < 0x1000_0000_0000 ==> (((ppn << 10u64) | (flags as u64)) >> 10u64) & 0x0000_0FFF_FFFF_FFFF
        == ppn && (((ppn << 10u64) | (flags as u64)) & 1 == 1) == (flags & 1 == 1) && ((ppn << 10u64)
        | (flags as u64)) as u8 == flags) by (bit_vector);
}

/// How the low flag bits of an entry read through its low byte, and two
/// constant facts.
pub proof fn lemma_flag_bits(e: u64)
    ensures
        ((e as u8) & 1 != 0) == (e & 1 == 1),
        ((e as u8) & 2 != 0) == (e & 2 == 2),
        ((e as u8) & 4 != 0) == (e & 4 == 4),
        ((e as u8) & 8 != 0) == (e & 8 == 8),
        0u64 & 1u64 == 0u64,
        1u8 & 1u8 == 1u8,
        forall|b: u8| #[trigger] (1u8 | b) & 1u8 == 1u8,
{
    assert(((e as u8) & 1 != 0) == (e & 1 == 1) && ((e as u8) & 2 != 0) == (e & 2 == 2) && ((e as u8)
        & 4 != 0) == (e & 4 == 4) && ((e as u8) & 8 != 0) == (e & 8 == 8) && 0u64 & 1u64 == 0u64
        && 1u8 & 1u8 == 1u8) by (bit_vector);
    assert forall|b: u8| #[trigger] (1u8 | b) & 1u8 == 1u8 by {
        assert((1u8 | b) & 1u8 == 1u8) by (bit_vector);
    }
}

/// A page-table entry.
#[derive(Copy, Clone)]
pub struct PageTableEntry {
    pub entry: u64,
}

impl PageTableEntry {
    /// The entry for page `ppn` with flags `flags`.
    pub fn new(ppn: PhysPageNum, flags: RisvPTEFlags) -> (r: Self)
        ensures
            r.entry == pte_of(ppn.0, flags.bits),
    {
        PageTableEntry { entry: (ppn.0 << 10u64) | (flags.bits as u64) }
    }

    /// The entry that maps nothing.
    pub fn empty() -> (r: Self)
        ensures
            r.entry == 0,
    {
        PageTableEntry { entry: 0 }
    }

    /// The physical page number the entry holds.
    pub fn to_ppn(&self) -> (r: PhysPageNum)
        ensures
            r.0 == pte_ppn(self.entry),
            r.0 < 0x1000_0000_0000,
    {
        let e = self.entry;
        assert((e >> 10u64) & 0x0000_0FFF_FFFF_FFFF < 0x1000_0000_0000) by (bit_vector);
        PhysPageNum((self.entry >> 10u64) & SV39_PPN_MASKS)
    }

    /// The entry's flags.
    pub fn to_flags(&self) -> (r: RisvPTEFlags)
        ensures
            r.bits == self.entry as u8,
    {
        RisvPTEFlags { bits: self.entry as u8 }
    }

    /// Whether the entry is valid.
    pub fn is_valid(&self) -> (r: bool)
        ensures
            r == pte_valid(self.entry),
    {
        let e = self.entry;
        proof {
            lemma_flag_bits(e);
        }
        self.to_flags().bits & PTE_V != 0
    }

    /// Whether the entry allows reads.
    pub fn is_readable(&self) -> (r: bool)
        ensures
            r == (self.entry & 2 == 2),
    {
        let e = self.entry;
        proof {
            lemma_flag_bits(e);
        }
        self.to_flags().bits & PTE_R != 0
    }

    /// Whether the entry allows writes.
    pub fn is_writeable(&self) -> (r: bool)
        ensures
            r == (self.entry & 4 == 4),
    {
        let e = self.entry;
        proof {
            lemma_flag_bits(e);
        }
        self.to_flags().bits & PTE_W != 0
    }

    /// Whether the entry allows execution.
    pub fn is_executable(&self) -> (r: bool)
        ensures
            r == (self.entry & 8 == 8),
    {
        let e = self.entry;
        proof {
            lemma_flag_bits(e);
        }
        self.to_flags().bits & PTE_X != 0
    }
}

impl From<u64> for PageTableEntry {
    /// The entry whose bits are `value`.
    fn from(value: u64) -> (r: Self) {
        PageTableEntry { entry: value }
    }
}

impl vstd::std_specs::convert::FromSpecImpl<u64> for PageTableEntry {
    open spec fn obeys_from_spec() -> bool {
        true
    }

    open spec fn from_spec(v: u64) -> Self {
        PageTableEntry { entry: v }
    }
}

/// Physical memory: the frames from `base_ppn` on, word `i` of frame `ppn`
/// being `words[(ppn - base_ppn) * 512 + i]`.
pub struct PhysMemory {
    pub base_ppn: u64,
    pub words: Vec<u64>,
}

impl PhysMemory {
    /// Frame `ppn` is part of the memory.
    pub open spec fn has_frame(&self, ppn: u64) -> bool {
        self.base_ppn <= ppn && (ppn - self.base_ppn + 1) * 512 <= self.words@.len()
    }

    /// The position of word `i` of frame `ppn`.
    pub open spec fn pos(&self, ppn: u64, i: int) -> int {
        (ppn - self.base_ppn) * 512 + i
    }

    /// Word `i` of frame `ppn`.
    pub open spec fn word(&self, ppn: u64, i: int) -> u64 {
        self.words@[self.pos(ppn, i)]
    }

    /// `pages` frames of zeros from frame `base_ppn` on.
    pub fn new(base_ppn: u64, pages: usize) -> (r: Self)
        requires
            pages * 512 <= usize::MAX,
        ensures
            r.base_ppn == base_ppn,
            r.words@.len() == pages * 512,
            forall|i: int| 0 <= i < r.words@.len() ==> r.words@[i] == 0,
    {
        let n = pages * 512;
        let mut words: Vec<u64> = Vec::new();
        let mut i: usize = 0;
        while i < n
            invariant
                i <= n,
                words@.len() == i,
                forall|j: int| 0 <= j < i ==> words@[j] == 0,
            decreases n - i,
        {
            words.push(0);
            i = i + 1;
        }
        PhysMemory { base_ppn, words }
    }

    /// Whether frame `ppn` is part of the memory.
    pub fn contains_frame(&self, ppn: u64) -> (r: bool)
        ensures
            r == self.has_frame(ppn),
    {
        if ppn < self.base_ppn {
            return false;
        }
        let d: u64 = ppn - self.base_ppn;
        let n: u64 = (self.words.len() / 512) as u64;
        proof {
            let len = self.words@.len() as int;
            assert((d + 1) * 512 <= len <==> d < len / 512) by (nonlinear_arith)
                requires
                    len >= 0,
                    d >= 0,
            {
                vstd::arithmetic::div_mod::lemma_fundamental_div_mod(len, 512);
            }
        }
        d < n
    }

    /// Reads word `i` of frame `ppn`.
    pub fn read_word(&self, ppn: u64, i: usize) -> (r: u64)
        requires
            self.has_frame(ppn),
            i < 512,
        ensures
            r == self.word(ppn, i as int),
    {
        let d: u64 = ppn - self.base_ppn;
        let len: usize = self.words.len();
        assert(d * 512 + 512 <= len);
        assert(d < len);
        let du: usize = d as usize;
        let pos: usize = du * 512 + i;
        assert(pos == self.pos(ppn, i as int));
        self.words[pos]
    }

    /// Writes `v` to word `i` of frame `ppn`.
    pub fn write_word(&mut self, ppn: u64, i: usize, v: u64)
        requires
            old(self).has_frame(ppn),
            i < 512,
        ensures
            final(self).base_ppn == old(self).base_ppn,
            final(self).words@ == old(self).words@.update(old(self).pos(ppn, i as int), v),
    {
        let d: u64 = ppn - self.base_ppn;
        let len: usize = self.words.len();
        assert(d * 512 + 512 <= len);
        assert(d < len);
        let du: usize = d as usize;
        let pos: usize = du * 512 + i;
        assert(pos == self.pos(ppn, i as int));
        self.words.set(pos, v);
    }
}

/// Where word `i` of frame `p` and word `j` of frame `q` sit at the same
/// position, they are the same word of the same frame.
pub proof fn lemma_pos_distinct(m: PhysMemory, p: u64, i: int, q: u64, j: int)
    requires
        m.base_ppn <= p,
        m.base_ppn <= q,
        0 <= i < 512,
        0 <= j < 512,
        p != q || i != j,
    ensures
        m.pos(p, i) != m.pos(q, j),
{
    let a = p - m.base_ppn;
    let b = q - m.base_ppn;
    if a == b {
        assert(i != j);
    } else if a < b {
        assert(a * 512 + 512 <= b * 512) by (nonlinear_arith)
            requires
                a < b,
        ;
    } else {
        assert(b * 512 + 512 <= a * 512) by (nonlinear_arith)
            requires
                b < a,
        ;
    }
}

/// The three table indices of `vpn`, leaf level first.
pub open spec fn idx(vpn: u64, level: nat) -> int {
    vpn_index(vpn, level) as int
}

/// Each table index of a page number is below 512.
pub proof fn lemma_idx_bounds(vpn: u64)
    ensures
        0 <= idx(vpn, 0) < 512,
        0 <= idx(vpn, 1) < 512,
        0 <= idx(vpn, 2) < 512,
{
    assert(vpn & 0x1FF < 512 && (vpn >> 9u64) & 0x1FF < 512 && (vpn >> 18u64) & 0x1FF < 512)
        by (bit_vector);
}

/// The table indices of a page number, as arithmetic.
pub proof fn lemma_idx_arith(v: u64)
    ensures
        idx(v, 0) == v % 512,
        idx(v, 1) == (v / 512) % 512,
        idx(v, 2) == (v / 0x4_0000) % 512,
{
    assert(v & 0x1FF == v % 512 && (v >> 9u64) & 0x1FF == (v / 512) % 512 && (v >> 18u64) & 0x1FF == (v
        / 0x4_0000) % 512) by (bit_vector);
}

/// The page number of the second-level table on the path of `vpn`, if the
/// first-level entry is valid.
pub open spec fn l2_table(m: PhysMemory, root: u64, vpn: u64) -> Option<u64> {
    let e = m.word(root, idx(vpn, 2));
    if pte_valid(e) {
        Some(pte_ppn(e))
    } else {
        None
    }
}

/// The page number of the leaf table on the path of `vpn`, if the first
/// two levels are valid.
pub open spec fn l3_table(m: PhysMemory, root: u64, vpn: u64) -> Option<u64> {
    match l2_table(m, root, vpn) {
        Some(t2) => {
            let e = m.word(t2, idx(vpn, 1));
            if pte_valid(e) {
                Some(pte_ppn(e))
            } else {
                None
            }
        },
        None => None,
    }
}

/// What the page table rooted at `root` maps `vpn` to: the page number of
/// a valid leaf entry, reached through valid entries of the two levels
/// above.
pub open spec fn walk(m: PhysMemory, root: u64, vpn: u64) -> Option<u64> {
    match l3_table(m, root, vpn) {
        Some(t3) => {
            let e = m.word(t3, idx(vpn, 0));
            if pte_valid(e) {
                Some(pte_ppn(e))
            } else {
                None
            }
        },
        None => None,
    }
}

/// A page number that a walk gives is below 2^44.
pub proof fn lemma_walk_bound(m: PhysMemory, root: u64, vpn: u64)
    ensures
        walk(m, root, vpn) matches Some(p) ==> p < 0x1000_0000_0000,
{
    if let Some(t3) = l3_table(m, root, vpn) {
        let e = m.word(t3, idx(vpn, 0));
        assert(((e >> 10u64) & 0x0000_0FFF_FFFF_FFFF) < 0x1000_0000_0000) by (bit_vector);
    }
}

/// Every table on the path of `vpn` that the walk reads is part of memory.
pub open spec fn path_in_memory(m: PhysMemory, root: u64, vpn: u64) -> bool {
    &&& m.has_frame(root)
    &&& l2_table(m, root, vpn) matches Some(t2) ==> m.has_frame(t2)
    &&& l3_table(m, root, vpn) matches Some(t3) ==> m.has_frame(t3)
}

/// Walks the page table rooted at `root_table` for `vpn`: the page it maps
/// to, or `None` where an entry on the way is not valid.
pub fn do_table_walk_in_4k(m: &PhysMemory, root_table: PhysPageNum, vpn: VirtPageNum) -> (r: Option<PhysPageNum>)
    requires
        path_in_memory(*m, root_table.0, vpn.0),
    ensures
        r == (match walk(*m, root_table.0, vpn.0) {
            Some(p) => Some(PhysPageNum(p)),
            None => None,
        }),
{
    let vidx = vpn.get_table_indexs();
    let first_entry = PageTableEntry::from(m.read_word(root_table.0, vidx[2] as usize));
    if !first_entry.is_valid() {
        return None;
    }
    let second = first_entry.to_ppn();
    let second_entry = PageTableEntry::from(m.read_word(second.0, vidx[1] as usize));
    if !second_entry.is_valid() {
        return None;
    }
    let third = second_entry.to_ppn();
    let third_entry = PageTableEntry::from(m.read_word(third.0, vidx[0] as usize));
    if !third_entry.is_valid() {
        return None;
    }
    Some(third_entry.to_ppn())
}

/// After word `i` of frame `p` is set to `v`, every other word of every
/// frame keeps its value.
pub proof fn lemma_write_word_effect(a: PhysMemory, b: PhysMemory, p: u64, i: int, v: u64)
    requires
        a.has_frame(p),
        0 <= i < 512,
        b.base_ppn == a.base_ppn,
        b.words@ == a.words@.update(a.pos(p, i), v),
    ensures
        b.word(p, i) == v,
        forall|q: u64, j: int|
            #![trigger b.word(q, j)]
            a.has_frame(q) && 0 <= j < 512 && (q != p || j != i) ==> b.word(q, j) == a.word(q, j),
        forall|q: u64| #[trigger] b.has_frame(q) == a.has_frame(q),
        b.words@.len() == a.words@.len(),
{
    assert(a.pos(p, i) < a.words@.len()) by (nonlinear_arith)
        requires
            a.base_ppn <= p,
            (p - a.base_ppn + 1) * 512 <= a.words@.len(),
            0 <= i < 512,
            a.pos(p, i) == (p - a.base_ppn) * 512 + i,
    ;
    assert forall|q: u64, j: int|
        a.has_frame(q) && 0 <= j < 512 && (q != p || j != i) implies #[trigger] b.word(q, j) == a.word(q, j) by {
        lemma_pos_distinct(a, p, i, q, j);
        assert(0 <= a.pos(q, j) < a.words@.len()) by (nonlinear_arith)
            requires
                a.base_ppn <= q,
                (q - a.base_ppn + 1) * 512 <= a.words@.len(),
                0 <= j < 512,
                a.pos(q, j) == (q - a.base_ppn) * 512 + j,
        ;
    }
}

/// `b` is `a` with every word of frame `f` set to zero.
pub open spec fn frame_cleared(a: PhysMemory, b: PhysMemory, f: u64) -> bool {
    &&& b.base_ppn == a.base_ppn
    &&& b.words@.len() == a.words@.len()
    &&& forall|i: int| 0 <= i < 512 ==> #[trigger] b.word(f, i) == 0
    &&& forall|q: u64, j: int|
        #![trigger b.word(q, j)]
        a.has_frame(q) && 0 <= j < 512 && q != f ==> b.word(q, j) == a.word(q, j)
}

/// Sets every word of frame `f` to zero.
pub fn clear_frame_words(m: &mut PhysMemory, f: u64)
    requires
        old(m).has_frame(f),
    ensures
        frame_cleared(*old(m), *final(m), f),
{
    let mut i: usize = 0;
    while i < 512
        invariant
            i <= 512,
            m.has_frame(f),
            m.base_ppn == old(m).base_ppn,
            m.words@.len() == old(m).words@.len(),
            forall|j: int| 0 <= j < i ==> #[trigger] m.word(f, j) == 0,
            forall|q: u64, j: int|
                #![trigger m.word(q, j)]
                old(m).has_frame(q) && 0 <= j < 512 && (q != f || j >= i) ==> m.word(q, j) == old(m).word(q, j),
        decreases 512 - i,
    {
        let ghost before = *m;
        m.write_word(f, i, 0);
        proof {
            lemma_write_word_effect(before, *m, f, i as int, 0);
        }
        i = i + 1;
    }
}

/// The allocator `alloc` is well formed and every frame it can hand out is
/// a nonzero frame of memory `m`, numbered below 2^44.
pub open spec fn alloc_ok(alloc: StackFrameAllocator, m: PhysMemory) -> bool {
    &&& alloc.wf()
    &&& alloc.last_ppn < 0x1000_0000_0000
    &&& forall|p: u64| #[trigger] alloc.free_frames().contains(p) ==> m.has_frame(p) && p != 0
}

/// A frame the allocator can hand out is numbered below its range's end.
pub proof fn lemma_free_below_last(alloc: StackFrameAllocator, p: u64)
    requires
        alloc.wf(),
        alloc.free_frames().contains(p),
    ensures
        p < alloc.last_ppn,
{
    if alloc.unused_ppns@.to_set().contains(p) {
        let k = choose|k: int| 0 <= k < alloc.unused_ppns@.len() && alloc.unused_ppns@[k] == p;
    }
}

/// Takes a frame from `alloc` and zeroes it.
fn alloc_zeroed_frame(alloc: &mut StackFrameAllocator, m: &mut PhysMemory) -> (f: u64)
    requires
        alloc_ok(*old(alloc), *old(m)),
        old(alloc).free_count() > 0,
    ensures
        old(alloc).free_frames().contains(f),
        final(alloc).free_frames() == old(alloc).free_frames().remove(f),
        final(alloc).free_count() + 1 == old(alloc).free_count(),
        final(alloc).wf(),
        final(alloc).last_ppn == old(alloc).last_ppn,
        old(m).has_frame(f),
        f != 0,
        f < 0x1000_0000_0000,
        frame_cleared(*old(m), *final(m), f),
{
    let ghost a0 = *alloc;
    let r = alloc.alloc_frame();
    proof {
        lemma_alloc_takes_free_frame(a0, *alloc, r);
    }
    let frame = FrameWrapper::new(r.unwrap());
    proof {
        lemma_free_below_last(a0, frame.ppn.0);
    }
    frame.clear_frame(m);
    frame.ppn.0
}

/// How many frames mapping a page at `vpn` takes for tables.
pub open spec fn frames_needed(m: PhysMemory, root: u64, vpn: u64) -> nat {
    if root == 0 {
        3
    } else if l2_table(m, root, vpn).is_none() {
        2
    } else if l3_table(m, root, vpn).is_none() {
        1
    } else {
        0
    }
}

/// What `vpn` is mapped to in the table rooted at `root` (nothing when
/// there is no root).
pub open spec fn mapped(m: PhysMemory, root: u64, vpn: u64) -> Option<u64> {
    if root == 0 {
        None
    } else {
        walk(m, root, vpn)
    }
}

/// Entry `i` of the root table.
pub open spec fn e1(m: PhysMemory, root: u64, i: int) -> u64 {
    m.word(root, i)
}

/// The second-level table that root entry `i` points to.
pub open spec fn t2_of(m: PhysMemory, root: u64, i: int) -> u64 {
    pte_ppn(e1(m, root, i))
}

/// Root entry `i` is valid.
pub open spec fn v1(m: PhysMemory, root: u64, i: int) -> bool {
    pte_valid(e1(m, root, i))
}

/// Entry `j` of the second-level table under root entry `i`.
pub open spec fn e2(m: PhysMemory, root: u64, i: int, j: int) -> u64 {
    m.word(t2_of(m, root, i), j)
}

/// Root entry `i` and entry `j` below it are valid.
pub open spec fn v2(m: PhysMemory, root: u64, i: int, j: int) -> bool {
    v1(m, root, i) && pte_valid(e2(m, root, i, j))
}

/// The leaf table under root entry `i` and second-level entry `j`.
pub open spec fn t3_of(m: PhysMemory, root: u64, i: int, j: int) -> u64 {
    pte_ppn(e2(m, root, i, j))
}

/// A table index.
pub open spec fn ix(i: int) -> bool {
    0 <= i < 512
}

/// The page table rooted at `root` is well formed: every table it reaches
/// (the root, the second-level tables, the leaf tables) is a frame of
/// memory that is not `free`, and no frame serves as two tables.
pub open spec fn pt_wf(m: PhysMemory, root: u64, free: Set<u64>) -> bool {
    &&& root != 0
    &&& m.has_frame(root)
    &&& !free.contains(root)
    &&& forall|i: int|
        #![trigger t2_of(m, root, i)]
        ix(i) && v1(m, root, i) ==> m.has_frame(t2_of(m, root, i)) && !free.contains(t2_of(m, root, i))
            && t2_of(m, root, i) != root
    &&& forall|i: int, k: int|
        #![trigger t2_of(m, root, i), t2_of(m, root, k)]
        ix(i) && ix(k) && i != k && v1(m, root, i) && v1(m, root, k) ==> t2_of(m, root, i) != t2_of(m, root, k)
    &&& forall|i: int, j: int|
        #![trigger t3_of(m, root, i, j)]
        ix(i) && ix(j) && v2(m, root, i, j) ==> m.has_frame(t3_of(m, root, i, j)) && !free.contains(
            t3_of(m, root, i, j),
        ) && t3_of(m, root, i, j) != root
    &&& forall|i: int, j: int, k: int|
        #![trigger t3_of(m, root, i, j), t2_of(m, root, k)]
        ix(i) && ix(j) && ix(k) && v2(m, root, i, j) && v1(m, root, k) ==> t3_of(m, root, i, j) != t2_of(m, root, k)
    &&& forall|i: int, j: int, k: int, l: int|
        #![trigger t3_of(m, root, i, j), t3_of(m, root, k, l)]
        ix(i) && ix(j) && ix(k) && ix(l) && (i != k || j != l) && v2(m, root, i, j) && v2(m, root, k, l)
            ==> t3_of(m, root, i, j) != t3_of(m, root, k, l)
}

/// The table rooted at `root` is well formed, or there is none (`root` 0).
pub open spec fn table_ok(m: PhysMemory, root: u64, free: Set<u64>) -> bool {
    root != 0 ==> pt_wf(m, root, free)
}

/// `v` and `w` select the same entry at every level of a table.
pub open spec fn same_slot(v: u64, w: u64) -> bool {
    idx(v, 2) == idx(w, 2) && idx(v, 1) == idx(w, 1) && idx(v, 0) == idx(w, 0)
}

/// In a well-formed table, the tables on the path of any page are frames
/// of memory that are not free, and no two of them are the same frame.
pub proof fn lemma_wf_path(m: PhysMemory, root: u64, free: Set<u64>, vpn: u64)
    requires
        pt_wf(m, root, free),
    ensures
        path_in_memory(m, root, vpn),
        l2_table(m, root, vpn) matches Some(t2) ==> !free.contains(t2) && t2 != root,
        l3_table(m, root, vpn) matches Some(t3) ==> !free.contains(t3) && t3 != root && t3
            != l2_table(m, root, vpn).unwrap(),
{
    lemma_idx_bounds(vpn);
    let i = idx(vpn, 2);
    let j = idx(vpn, 1);
    if v1(m, root, i) {
        assert(l2_table(m, root, vpn) == Some(t2_of(m, root, i)));
        if v2(m, root, i, j) {
            assert(l3_table(m, root, vpn) == Some(t3_of(m, root, i, j)));
            assert(t3_of(m, root, i, j) != t2_of(m, root, i));
        }
    }
}

/// `b` reads the same as `a` in every word of the root and of every
/// second-level table that `a` reaches, and has the same frames.
pub open spec fn tables_agree(a: PhysMemory, b: PhysMemory, root: u64) -> bool {
    &&& b.base_ppn == a.base_ppn
    &&& b.words@.len() == a.words@.len()
    &&& forall|i: int| #![trigger e1(b, root, i)] ix(i) ==> e1(b, root, i) == e1(a, root, i)
    &&& forall|i: int, j: int|
        #![trigger e2(b, root, i, j)]
        ix(i) && ix(j) && v1(a, root, i) ==> e2(b, root, i, j) == e2(a, root, i, j)
}

/// Where the tables read the same, the page table stays well formed
/// (with fewer free frames) and the walks to the leaf tables are the same.
pub proof fn lemma_tables_agree(a: PhysMemory, b: PhysMemory, root: u64, free: Set<u64>, free2: Set<u64>)
    requires
        pt_wf(a, root, free),
        tables_agree(a, b, root),
        free2.subset_of(free),
    ensures
        pt_wf(b, root, free2),
        forall|vpn: u64| #[trigger] l3_table(b, root, vpn) == l3_table(a, root, vpn),
        forall|vpn: u64| #[trigger] l2_table(b, root, vpn) == l2_table(a, root, vpn),
{
    assert forall|q: u64| #[trigger] b.has_frame(q) == a.has_frame(q) by {}
    assert forall|i: int| ix(i) implies #[trigger] t2_of(b, root, i) == t2_of(a, root, i) && v1(b, root, i) == v1(
        a,
        root,
        i,
    ) by {
        assert(e1(b, root, i) == e1(a, root, i));
    }
    assert forall|i: int, j: int| ix(i) && ix(j) implies #[trigger] v2(b, root, i, j) == v2(a, root, i, j) && (v2(
        a,
        root,
        i,
        j,
    ) ==> t3_of(b, root, i, j) == t3_of(a, root, i, j)) by {
        assert(e1(b, root, i) == e1(a, root, i));
        if v1(a, root, i) {
            assert(e2(b, root, i, j) == e2(a, root, i, j));
        }
    }
    assert forall|vpn: u64| #[trigger] l2_table(b, root, vpn) == l2_table(a, root, vpn) by {
        lemma_idx_bounds(vpn);
        assert(e1(b, root, idx(vpn, 2)) == e1(a, root, idx(vpn, 2)));
    }
    assert forall|vpn: u64| #[trigger] l3_table(b, root, vpn) == l3_table(a, root, vpn) by {
        lemma_idx_bounds(vpn);
        assert(e1(b, root, idx(vpn, 2)) == e1(a, root, idx(vpn, 2)));
        if v1(a, root, idx(vpn, 2)) {
            assert(e2(b, root, idx(vpn, 2), idx(vpn, 1)) == e2(a, root, idx(vpn, 2), idx(vpn, 1)));
        }
    }
}


/// `b` is `a` with word `i` of frame `p` changed, every other word of
/// every frame of memory staying the same.
pub open spec fn one_word_changed(a: PhysMemory, b: PhysMemory, p: u64, i: int) -> bool {
    &&& b.base_ppn == a.base_ppn
    &&& b.words@.len() == a.words@.len()
    &&& forall|q: u64, j: int|
        #![trigger b.word(q, j)]
        a.has_frame(q) && ix(j) && (q != p || j != i) ==> b.word(q, j) == a.word(q, j)
}

/// A root whose words are all zero maps nothing and is a well-formed
/// table.
pub proof fn lemma_fresh_root(m: PhysMemory, root: u64, free: Set<u64>)
    requires
        root != 0,
        m.has_frame(root),
        !free.contains(root),
        forall|i: int| ix(i) ==> #[trigger] m.word(root, i) == 0,
    ensures
        pt_wf(m, root, free),
        forall|vpn: u64| #[trigger] walk(m, root, vpn).is_none(),
{
    lemma_flag_bits(0);
    assert forall|i: int| ix(i) implies !#[trigger] v1(m, root, i) by {
        assert(m.word(root, i) == 0);
    }
    assert forall|vpn: u64| #[trigger] walk(m, root, vpn).is_none() by {
        lemma_idx_bounds(vpn);
        assert(!v1(m, root, idx(vpn, 2)));
    }
}

/// Setting an invalid root entry `i2` to point at a zeroed free frame `f`
/// keeps the table well formed (with `f` no longer free) and changes no
/// walk; the paths through entry `i2` now reach `f`.
pub proof fn lemma_grow_l2(a: PhysMemory, b: PhysMemory, root: u64, free: Set<u64>, i2: int, f: u64)
    requires
        pt_wf(a, root, free),
        ix(i2),
        !v1(a, root, i2),
        free.contains(f),
        a.has_frame(f),
        f < 0x1000_0000_0000,
        b.base_ppn == a.base_ppn,
        b.words@.len() == a.words@.len(),
        b.word(root, i2) == pte_of(f, 1),
        forall|q: u64, j: int|
            #![trigger b.word(q, j)]
            a.has_frame(q) && ix(j) && q != f && (q != root || j != i2) ==> b.word(q, j) == a.word(q, j),
        forall|j: int| ix(j) ==> #[trigger] b.word(f, j) == 0,
    ensures
        pt_wf(b, root, free.remove(f)),
        forall|vpn: u64| #[trigger] walk(b, root, vpn) == walk(a, root, vpn),
        forall|vpn: u64| idx(vpn, 2) == i2 ==> #[trigger] l2_table(b, root, vpn) == Some(f),
{
    lemma_pte_round_trip(f, 1);
    lemma_flag_bits(0);
    assert(1u8 & 1 == 1);
    assert forall|q: u64| #[trigger] b.has_frame(q) == a.has_frame(q) by {}
    assert(f != root);
    // the root entries and second-level tables of `b`
    assert forall|i: int| ix(i) && i != i2 implies #[trigger] e1(b, root, i) == e1(a, root, i) by {}
    assert forall|i: int| ix(i) && v1(a, root, i) implies t2_of(a, root, i) != f && i != i2 by {
        assert(!free.contains(t2_of(a, root, i)));
    }
    assert forall|i: int, j: int| ix(i) && ix(j) && v1(a, root, i) implies #[trigger] e2(b, root, i, j) == e2(
        a,
        root,
        i,
        j,
    ) by {
        assert(e1(b, root, i) == e1(a, root, i));
        assert(t2_of(a, root, i) != f);
    }
    assert forall|j: int| ix(j) implies !#[trigger] v2(b, root, i2, j) by {
        assert(e1(b, root, i2) == pte_of(f, 1));
        assert(t2_of(b, root, i2) == f);
        assert(b.word(f, j) == 0);
    }
    let fr = free.remove(f);
    assert forall|i: int|
        #![trigger t2_of(b, root, i)]
        ix(i) && v1(b, root, i) implies b.has_frame(t2_of(b, root, i)) && !fr.contains(t2_of(b, root, i))
        && t2_of(b, root, i) != root by {
        if i != i2 {
            assert(e1(b, root, i) == e1(a, root, i));
        }
    }
    assert forall|i: int, k: int|
        #![trigger t2_of(b, root, i), t2_of(b, root, k)]
        ix(i) && ix(k) && i != k && v1(b, root, i) && v1(b, root, k) implies t2_of(b, root, i) != t2_of(
        b,
        root,
        k,
    ) by {
        if i != i2 {
            assert(e1(b, root, i) == e1(a, root, i));
        }
        if k != i2 {
            assert(e1(b, root, k) == e1(a, root, k));
        }
        if i != i2 && k != i2 {
            assert(t2_of(a, root, i) != t2_of(a, root, k));
        }
    }
    assert forall|i: int, j: int|
        #![trigger t3_of(b, root, i, j)]
        ix(i) && ix(j) && v2(b, root, i, j) implies b.has_frame(t3_of(b, root, i, j)) && !fr.contains(
        t3_of(b, root, i, j),
    ) && t3_of(b, root, i, j) != root by {
        assert(i != i2);
        assert(e1(b, root, i) == e1(a, root, i));
        assert(e2(b, root, i, j) == e2(a, root, i, j));
        assert(v2(a, root, i, j));
        assert(t3_of(b, root, i, j) == t3_of(a, root, i, j));
        assert(a.has_frame(t3_of(a, root, i, j)));
    }
    assert forall|i: int, j: int, k: int|
        #![trigger t3_of(b, root, i, j), t2_of(b, root, k)]
        ix(i) && ix(j) && ix(k) && v2(b, root, i, j) && v1(b, root, k) implies t3_of(b, root, i, j) != t2_of(
        b,
        root,
        k,
    ) by {
        assert(i != i2);
        assert(e1(b, root, i) == e1(a, root, i));
        assert(e2(b, root, i, j) == e2(a, root, i, j));
        assert(v2(a, root, i, j));
        if k != i2 {
            assert(e1(b, root, k) == e1(a, root, k));
            assert(t3_of(a, root, i, j) != t2_of(a, root, k));
        } else {
            assert(!free.contains(t3_of(a, root, i, j)));
        }
    }
    assert forall|i: int, j: int, k: int, l: int|
        #![trigger t3_of(b, root, i, j), t3_of(b, root, k, l)]
        ix(i) && ix(j) && ix(k) && ix(l) && (i != k || j != l) && v2(b, root, i, j) && v2(b, root, k, l)
            implies t3_of(b, root, i, j) != t3_of(b, root, k, l) by {
        assert(i != i2 && k != i2);
        assert(e1(b, root, i) == e1(a, root, i));
        assert(e1(b, root, k) == e1(a, root, k));
        assert(e2(b, root, i, j) == e2(a, root, i, j));
        assert(e2(b, root, k, l) == e2(a, root, k, l));
        assert(t3_of(a, root, i, j) != t3_of(a, root, k, l));
    }
    assert forall|vpn: u64| #[trigger] walk(b, root, vpn) == walk(a, root, vpn) by {
        lemma_idx_bounds(vpn);
        let j2 = idx(vpn, 2);
        let j1 = idx(vpn, 1);
        let j0 = idx(vpn, 0);
        if j2 == i2 {
            assert(!v1(a, root, j2));
            assert(!v2(b, root, j2, j1));
        } else {
            assert(e1(b, root, j2) == e1(a, root, j2));
            if v1(a, root, j2) {
                assert(e2(b, root, j2, j1) == e2(a, root, j2, j1));
                if v2(a, root, j2, j1) {
                    let t3 = t3_of(a, root, j2, j1);
                    assert(!free.contains(t3));
                    assert(t3 != root);
                    assert(b.word(t3, j0) == a.word(t3, j0));
                }
            }
        }
    }
    assert forall|vpn: u64| idx(vpn, 2) == i2 implies #[trigger] l2_table(b, root, vpn) == Some(f) by {
        assert(e1(b, root, i2) == pte_of(f, 1));
    }
}


/// Setting an invalid entry `i1` of the second-level table under root
/// entry `i2` to point at a zeroed free frame `f` keeps the table well
/// formed (with `f` no longer free) and changes no walk; the paths through
/// those two entries now reach `f` as their leaf table.
pub proof fn lemma_grow_l3(a: PhysMemory, b: PhysMemory, root: u64, free: Set<u64>, i2: int, i1: int, f: u64)
    requires
        pt_wf(a, root, free),
        ix(i2),
        ix(i1),
        v1(a, root, i2),
        !v2(a, root, i2, i1),
        free.contains(f),
        a.has_frame(f),
        f < 0x1000_0000_0000,
        b.base_ppn == a.base_ppn,
        b.words@.len() == a.words@.len(),
        b.word(t2_of(a, root, i2), i1) == pte_of(f, 1),
        forall|q: u64, j: int|
            #![trigger b.word(q, j)]
            a.has_frame(q) && ix(j) && q != f && (q != t2_of(a, root, i2) || j != i1) ==> b.word(q, j) == a.word(
                q,
                j,
            ),
        forall|j: int| ix(j) ==> #[trigger] b.word(f, j) == 0,
    ensures
        pt_wf(b, root, free.remove(f)),
        forall|vpn: u64| #[trigger] walk(b, root, vpn) == walk(a, root, vpn),
        forall|vpn: u64|
            idx(vpn, 2) == i2 && idx(vpn, 1) == i1 ==> #[trigger] l3_table(b, root, vpn) == Some(f),
{
    lemma_pte_round_trip(f, 1);
    lemma_flag_bits(0);
    assert(1u8 & 1 == 1);
    let t2 = t2_of(a, root, i2);
    let fr = free.remove(f);
    assert forall|q: u64| #[trigger] b.has_frame(q) == a.has_frame(q) by {}
    assert(f != root);
    assert(t2 != f) by {
        assert(!free.contains(t2));
    }
    assert(t2 != root);
    assert forall|i: int| ix(i) implies #[trigger] e1(b, root, i) == e1(a, root, i) by {}
    assert forall|i: int| ix(i) implies #[trigger] t2_of(b, root, i) == t2_of(a, root, i) && v1(b, root, i) == v1(
        a,
        root,
        i,
    ) by {
        assert(e1(b, root, i) == e1(a, root, i));
    }
    assert forall|i: int, j: int|
        ix(i) && ix(j) && v1(a, root, i) && (i != i2 || j != i1) implies #[trigger] e2(b, root, i, j) == e2(
        a,
        root,
        i,
        j,
    ) by {
        assert(e1(b, root, i) == e1(a, root, i));
        assert(!free.contains(t2_of(a, root, i)));
        if i != i2 {
            assert(t2_of(a, root, i) != t2);
        }
    }
    assert(e2(b, root, i2, i1) == pte_of(f, 1)) by {
        assert(e1(b, root, i2) == e1(a, root, i2));
    }
    assert(v2(b, root, i2, i1) && t3_of(b, root, i2, i1) == f);
    assert forall|i: int, j: int| ix(i) && ix(j) && (i != i2 || j != i1) implies #[trigger] v2(b, root, i, j) == v2(
        a,
        root,
        i,
        j,
    ) && (v2(a, root, i, j) ==> t3_of(b, root, i, j) == t3_of(a, root, i, j)) by {
        assert(e1(b, root, i) == e1(a, root, i));
        if v1(a, root, i) {
            assert(e2(b, root, i, j) == e2(a, root, i, j));
        }
    }
    assert forall|i: int, j: int|
        ix(i) && ix(j) && v2(a, root, i, j) implies #[trigger] t3_of(a, root, i, j) != f by {
        assert(!free.contains(t3_of(a, root, i, j)));
    }
    assert forall|k: int| ix(k) && v1(a, root, k) implies #[trigger] t2_of(a, root, k) != f by {
        assert(!free.contains(t2_of(a, root, k)));
    }
    assert forall|i: int|
        #![trigger t2_of(b, root, i)]
        ix(i) && v1(b, root, i) implies b.has_frame(t2_of(b, root, i)) && !fr.contains(t2_of(b, root, i))
        && t2_of(b, root, i) != root by {
        assert(t2_of(b, root, i) == t2_of(a, root, i));
    }
    assert forall|i: int, k: int|
        #![trigger t2_of(b, root, i), t2_of(b, root, k)]
        ix(i) && ix(k) && i != k && v1(b, root, i) && v1(b, root, k) implies t2_of(b, root, i) != t2_of(
        b,
        root,
        k,
    ) by {
        assert(t2_of(b, root, i) == t2_of(a, root, i));
        assert(t2_of(b, root, k) == t2_of(a, root, k));
    }
    assert forall|i: int, j: int|
        #![trigger t3_of(b, root, i, j)]
        ix(i) && ix(j) && v2(b, root, i, j) implies b.has_frame(t3_of(b, root, i, j)) && !fr.contains(
        t3_of(b, root, i, j),
    ) && t3_of(b, root, i, j) != root by {
        if i != i2 || j != i1 {
            assert(t3_of(b, root, i, j) == t3_of(a, root, i, j));
            assert(a.has_frame(t3_of(a, root, i, j)));
        }
    }
    assert forall|i: int, j: int, k: int|
        #![trigger t3_of(b, root, i, j), t2_of(b, root, k)]
        ix(i) && ix(j) && ix(k) && v2(b, root, i, j) && v1(b, root, k) implies t3_of(b, root, i, j) != t2_of(
        b,
        root,
        k,
    ) by {
        assert(t2_of(b, root, k) == t2_of(a, root, k));
        if i != i2 || j != i1 {
            assert(t3_of(b, root, i, j) == t3_of(a, root, i, j));
            assert(t3_of(a, root, i, j) != t2_of(a, root, k));
        }
    }
    assert forall|i: int, j: int, k: int, l: int|
        #![trigger t3_of(b, root, i, j), t3_of(b, root, k, l)]
        ix(i) && ix(j) && ix(k) && ix(l) && (i != k || j != l) && v2(b, root, i, j) && v2(b, root, k, l)
            implies t3_of(b, root, i, j) != t3_of(b, root, k, l) by {
        if i != i2 || j != i1 {
            assert(t3_of(b, root, i, j) == t3_of(a, root, i, j));
        }
        if k != i2 || l != i1 {
            assert(t3_of(b, root, k, l) == t3_of(a, root, k, l));
        }
        if (i != i2 || j != i1) && (k != i2 || l != i1) {
            assert(t3_of(a, root, i, j) != t3_of(a, root, k, l));
        }
    }
    assert forall|vpn: u64| #[trigger] walk(b, root, vpn) == walk(a, root, vpn) by {
        lemma_idx_bounds(vpn);
        let j2 = idx(vpn, 2);
        let j1 = idx(vpn, 1);
        let j0 = idx(vpn, 0);
        if j2 == i2 && j1 == i1 {
            assert(b.word(f, j0) == 0);
        } else if v2(a, root, j2, j1) {
            let t3 = t3_of(a, root, j2, j1);
            assert(t3 != f);
            assert(t3 != t2) by {
                assert(t3_of(a, root, j2, j1) != t2_of(a, root, i2));
            }
            assert(b.word(t3, j0) == a.word(t3, j0));
        }
    }
}

/// Writing word `i0` of the leaf table on the valid path of entries `i2`
/// and `i1` keeps the table well formed and changes the walk of no page
/// whose indices differ from `(i2, i1, i0)`.
pub proof fn lemma_leaf_write(a: PhysMemory, b: PhysMemory, root: u64, free: Set<u64>, i2: int, i1: int, i0: int)
    requires
        pt_wf(a, root, free),
        ix(i2),
        ix(i1),
        ix(i0),
        v2(a, root, i2, i1),
        one_word_changed(a, b, t3_of(a, root, i2, i1), i0),
    ensures
        pt_wf(b, root, free),
        forall|vpn: u64| #[trigger] l3_table(b, root, vpn) == l3_table(a, root, vpn),
        forall|vpn: u64|
            (idx(vpn, 2) != i2 || idx(vpn, 1) != i1 || idx(vpn, 0) != i0) ==> #[trigger] walk(b, root, vpn)
                == walk(a, root, vpn),
{
    let t3 = t3_of(a, root, i2, i1);
    assert forall|q: u64| #[trigger] b.has_frame(q) == a.has_frame(q) by {}
    assert(t3 != root);
    assert forall|i: int| #![trigger e1(b, root, i)] ix(i) implies e1(b, root, i) == e1(a, root, i) by {}
    assert forall|i: int, j: int|
        #![trigger e2(b, root, i, j)]
        ix(i) && ix(j) && v1(a, root, i) implies e2(b, root, i, j) == e2(a, root, i, j) by {
        assert(t3 != t2_of(a, root, i));
    }
    lemma_tables_agree(a, b, root, free, free);
    assert forall|vpn: u64|
        (idx(vpn, 2) != i2 || idx(vpn, 1) != i1 || idx(vpn, 0) != i0) implies #[trigger] walk(b, root, vpn) == walk(
        a,
        root,
        vpn,
    ) by {
        lemma_idx_bounds(vpn);
        let j2 = idx(vpn, 2);
        let j1 = idx(vpn, 1);
        let j0 = idx(vpn, 0);
        assert(l3_table(b, root, vpn) == l3_table(a, root, vpn));
        if v2(a, root, j2, j1) {
            let u = t3_of(a, root, j2, j1);
            assert(a.has_frame(u));
            if j2 != i2 || j1 != i1 {
                assert(u != t3);
            }
            assert(b.word(u, j0) == a.word(u, j0));
        }
    }
}


/// A page table whose tables are frames it owns, as a user address space
/// has. `root_ppn` 0 means there is no table yet; `page_table` lists the
/// frames the tables live in.
pub struct DynamicPageTable {
    pub root_ppn: PhysPageNum,
    pub page_table: Vec<u64>,
}

impl DynamicPageTable {
    /// No table yet.
    pub fn new() -> (r: Self)
        ensures
            r.root_ppn.0 == 0,
            r.page_table@ == Seq::<u64>::empty(),
    {
        DynamicPageTable { root_ppn: PhysPageNum(0), page_table: Vec::new() }
    }

    /// Uses the table at physical address `phy_addr` as the root.
    pub fn set_root_ppn(&mut self, phy_addr: u64)
        ensures
            final(self).root_ppn.0 == (phy_addr & 0x00FF_FFFF_FFFF_FFFF) >> 12u64,
            final(self).page_table == old(self).page_table,
    {
        self.root_ppn = PhysPageNum::from(crate::mm::address::PhysAddr::from(phy_addr));
    }

    /// The value of the `satp` register that selects this table in Sv39
    /// mode.
    pub fn get_root_stap(&self) -> (r: u64)
        ensures
            r == (8u64 << 60u64) | self.root_ppn.0,
    {
        let ppn: u64 = self.root_ppn.0;
        (8u64 << 60u64) | ppn
    }

    /// Makes sure the tables on the path of `vpn` exist, taking zeroed
    /// frames for the missing ones (the root first, when there is none),
    /// and returns the leaf table's page number. The table stays well
    /// formed and what every page maps to stays the same. Where the path
    /// exists already nothing changes and no frame is taken, so a second
    /// call for the same page returns the same table; a leaf table made
    /// here is all zero, and a second-level table made here is zero but
    /// for the entry on the path.
    #[verifier::rlimit(60)]
    pub fn check_l2_pointers(
        &mut self,
        alloc: &mut StackFrameAllocator,
        m: &mut PhysMemory,
        vpn: VirtPageNum,
    ) -> (r: PhysPageNum)
        requires
            alloc_ok(*old(alloc), *old(m)),
            table_ok(*old(m), old(self).root_ppn.0, old(alloc).free_frames()),
            old(alloc).free_count() >= frames_needed(*old(m), old(self).root_ppn.0, vpn.0),
        ensures
            final(self).root_ppn.0 != 0,
            old(self).root_ppn.0 != 0 ==> final(self).root_ppn == old(self).root_ppn,
            l3_table(*final(m), final(self).root_ppn.0, vpn.0) == Some(r.0),
            table_ok(*final(m), final(self).root_ppn.0, final(alloc).free_frames()),
            forall|v: u64|
                #[trigger] mapped(*final(m), final(self).root_ppn.0, v) == mapped(*old(m), old(self).root_ppn.0, v),
            alloc_ok(*final(alloc), *final(m)),
            final(alloc).free_count() + frames_needed(*old(m), old(self).root_ppn.0, vpn.0)
                == old(alloc).free_count(),
            final(alloc).free_frames().subset_of(old(alloc).free_frames()),
            final(m).base_ppn == old(m).base_ppn,
            final(m).words@.len() == old(m).words@.len(),
            final(self).page_table@.to_set() == old(self).page_table@.to_set() + old(
                alloc,
            ).free_frames().difference(final(alloc).free_frames()),
            old(self).root_ppn.0 != 0 && l3_table(*old(m), old(self).root_ppn.0, vpn.0).is_some() ==> {
                &&& *final(m) == *old(m)
                &&& *final(alloc) == *old(alloc)
                &&& *final(self) == *old(self)
                &&& l3_table(*old(m), old(self).root_ppn.0, vpn.0) == Some(r.0)
            },
            old(self).root_ppn.0 == 0 || l3_table(*old(m), old(self).root_ppn.0, vpn.0).is_none() ==> forall|j: int|
                ix(j) ==> #[trigger] final(m).word(r.0, j) == 0,
            old(self).root_ppn.0 == 0 || l2_table(*old(m), old(self).root_ppn.0, vpn.0).is_none() ==> forall|j: int|
                ix(j) && j != idx(vpn.0, 1) ==> #[trigger] final(m).word(
                    l2_table(*final(m), final(self).root_ppn.0, vpn.0).unwrap(),
                    j,
                ) == 0,
    {
        let ghost m0 = *m;
        let ghost a0 = *alloc;
        let ghost pt0 = self.page_table@;
        let ghost root0 = self.root_ppn.0;
        let vidx = vpn.get_table_indexs();
        let i2 = vidx[2] as usize;
        let i1 = vidx[1] as usize;
        proof {
            lemma_idx_bounds(vpn.0);
            if root0 != 0 {
                lemma_wf_path(m0, root0, a0.free_frames(), vpn.0);
            }
        }
        if self.root_ppn.0 == 0 {
            let f = alloc_zeroed_frame(alloc, m);
            self.root_ppn = PhysPageNum(f);
            self.page_table.push(f);
            proof {
                crate::task::process::lemma_push_to_set(pt0, f);
                assert(a0.free_frames().difference(alloc.free_frames()) =~= set![f]);
                assert(m.word(f, i2 as int) == 0);
                lemma_flag_bits(0);
                assert(l2_table(*m, f, vpn.0).is_none());
                assert forall|q: u64| #[trigger] alloc.free_frames().contains(q) implies m.has_frame(q) && q != 0 by {
                    assert(a0.free_frames().contains(q));
                }
                assert(m.has_frame(f));
                lemma_fresh_root(*m, f, alloc.free_frames());
            }
        }
        let root = self.root_ppn.0;
        proof {
            assert(self.page_table@.to_set() =~= pt0.to_set() + a0.free_frames().difference(
                alloc.free_frames(),
            ));
        }
        let ghost m1 = *m;
        let ghost a1 = *alloc;
        proof {
            assert(pt_wf(m1, root, a1.free_frames()));
            assert forall|v: u64| #[trigger] walk(m1, root, v) == mapped(m0, root0, v) by {}
        }
        let mut first_entry = PageTableEntry::from(m.read_word(root, i2));
        if !first_entry.is_valid() {
            let f = alloc_zeroed_frame(alloc, m);
            let ghost m_c = *m;
            let entry = PageTableEntry::new(PhysPageNum(f), RisvPTEFlags { bits: PTE_V });
            m.write_word(root, i2, entry.entry);
            proof {
                lemma_write_word_effect(m_c, *m, root, i2 as int, entry.entry);
                lemma_pte_round_trip(f, PTE_V);
                lemma_flag_bits(0);
                assert(m.word(f, i1 as int) == 0);
                assert(l2_table(*m, root, vpn.0) == Some(f));
                assert(l3_table(*m, root, vpn.0).is_none());
                assert forall|q: u64| #[trigger] alloc.free_frames().contains(q) implies m.has_frame(q) && q != 0 by {
                    assert(a1.free_frames().contains(q));
                }
                assert(!v1(m1, root, i2 as int));
                assert(f != root);
                assert forall|j: int| ix(j) implies #[trigger] m.word(f, j) == 0 by {
                    assert(m_c.word(f, j) == 0);
                }
                lemma_grow_l2(m1, *m, root, a1.free_frames(), i2 as int, f);
            }
            first_entry = entry;
            let ghost pt_before = self.page_table@;
            self.page_table.push(f);
            proof {
                crate::task::process::lemma_push_to_set(pt_before, f);
                assert(a0.free_frames().difference(alloc.free_frames()) =~= a0.free_frames().difference(
                    a1.free_frames(),
                ).insert(f));
            }
        }
        let second = first_entry.to_ppn().0;
        proof {
            assert(self.page_table@.to_set() =~= pt0.to_set() + a0.free_frames().difference(
                alloc.free_frames(),
            ));
        }
        let ghost m2 = *m;
        let ghost a2 = *alloc;
        proof {
            assert(l2_table(*m, root, vpn.0) == Some(second));
            assert(pt_wf(m2, root, a2.free_frames()));
            assert forall|v: u64| #[trigger] walk(m2, root, v) == mapped(m0, root0, v) by {
                assert(walk(m1, root, v) == mapped(m0, root0, v));
            }
            lemma_wf_path(m2, root, a2.free_frames(), vpn.0);
        }
        let second_entry = PageTableEntry::from(m.read_word(second, i1));
        if !second_entry.is_valid() {
            let f = alloc_zeroed_frame(alloc, m);
            let ghost m_c = *m;
            let entry = PageTableEntry::new(PhysPageNum(f), RisvPTEFlags { bits: PTE_V });
            m.write_word(second, i1, entry.entry);
            proof {
                lemma_write_word_effect(m_c, *m, second, i1 as int, entry.entry);
                lemma_pte_round_trip(f, PTE_V);
                lemma_flag_bits(0);
                assert(l2_table(*m, root, vpn.0) == Some(second));
                assert(l3_table(*m, root, vpn.0) == Some(f));
                assert(m.word(f, vidx[0] as int) == 0);
                assert forall|q: u64| #[trigger] alloc.free_frames().contains(q) implies m.has_frame(q) && q != 0 by {
                    assert(a2.free_frames().contains(q));
                }
                assert(v1(m2, root, i2 as int));
                assert(t2_of(m2, root, i2 as int) == second);
                assert(!v2(m2, root, i2 as int, i1 as int));
                assert(f != second);
                assert forall|j: int| ix(j) implies #[trigger] m.word(f, j) == 0 by {
                    assert(m_c.word(f, j) == 0);
                }
                lemma_grow_l3(m2, *m, root, a2.free_frames(), i2 as int, i1 as int, f);
            }
            let ghost pt_before = self.page_table@;
            self.page_table.push(f);
            proof {
                crate::task::process::lemma_push_to_set(pt_before, f);
                assert(a0.free_frames().difference(alloc.free_frames()) =~= a0.free_frames().difference(
                    a2.free_frames(),
                ).insert(f));
            }
        }
        proof {
            assert(self.page_table@.to_set() =~= pt0.to_set() + a0.free_frames().difference(
                alloc.free_frames(),
            ));
            assert forall|v: u64| #[trigger] mapped(*m, root, v) == mapped(m0, root0, v) by {
                assert(walk(m2, root, v) == mapped(m0, root0, v));
            }
        }
        let find_entry = PageTableEntry::from(m.read_word(second, i1));
        find_entry.to_ppn()
    }
    /// Sets the leaf entry of `vpn` in leaf table `l3_table_ppn` to map
    /// `ppn` with `flags` (and valid). The entry must not be valid yet.
    pub fn set_l3_pages(
        &self,
        m: &mut PhysMemory,
        vpn: VirtPageNum,
        ppn: PhysPageNum,
        flags: RisvPTEFlags,
        l3_table_ppn: PhysPageNum,
    )
        requires
            old(m).has_frame(l3_table_ppn.0),
            !pte_valid(old(m).word(l3_table_ppn.0, idx(vpn.0, 0))),
        ensures
            final(m).base_ppn == old(m).base_ppn,
            final(m).words@ == old(m).words@.update(
                old(m).pos(l3_table_ppn.0, idx(vpn.0, 0)),
                pte_of(ppn.0, 1u8 | flags.bits),
            ),
    {
        let vidx = vpn.get_table_indexs();
        let third_entry = PageTableEntry::from(m.read_word(l3_table_ppn.0, vidx[0] as usize));
        if !third_entry.is_valid() {
            let entry = PageTableEntry::new(ppn, RisvPTEFlags { bits: PTE_V }.union(flags));
            m.write_word(l3_table_ppn.0, vidx[0] as usize, entry.entry);
        }
    }

    /// The page number of the table on the path of `vpn` at `level`: the
    /// second-level table for 2, else the leaf table. The root and the
    /// tables on the way must exist.
    pub fn get_n_level_table_ppn(&self, m: &PhysMemory, vpn: VirtPageNum, level: usize) -> (r: PhysPageNum)
        requires
            self.root_ppn.0 != 0,
            path_in_memory(*m, self.root_ppn.0, vpn.0),
            l2_table(*m, self.root_ppn.0, vpn.0).is_some(),
            level != 2 ==> l3_table(*m, self.root_ppn.0, vpn.0).is_some(),
        ensures
            level == 2 ==> Some(r.0) == l2_table(*m, self.root_ppn.0, vpn.0),
            level != 2 ==> Some(r.0) == l3_table(*m, self.root_ppn.0, vpn.0),
    {
        let vidx = vpn.get_table_indexs();
        let first_entry = PageTableEntry::from(m.read_word(self.root_ppn.0, vidx[2] as usize));
        if level == 2 {
            return first_entry.to_ppn();
        }
        let second_entry = PageTableEntry::from(m.read_word(first_entry.to_ppn().0, vidx[1] as usize));
        second_entry.to_ppn()
    }

    /// Clears the second-level entry of `vpn` in table `l2_table_ppn`; the
    /// leaf table it pointed to is no longer one of this table's frames,
    /// and goes back to the allocator when it was.
    pub fn clear_l2_entrys(
        &mut self,
        alloc: &mut StackFrameAllocator,
        m: &mut PhysMemory,
        vpn: VirtPageNum,
        l2_table_ppn: PhysPageNum,
    )
        requires
            old(m).has_frame(l2_table_ppn.0),
            old(self).page_table@.no_duplicates(),
            forall|p: u64|
                #[trigger] old(self).page_table@.contains(p) ==> p <= old(alloc).cur_ppn
                    && !old(alloc).unused_ppns@.contains(p),
        ensures
            final(m).base_ppn == old(m).base_ppn,
            final(m).words@ == old(m).words@.update(old(m).pos(l2_table_ppn.0, idx(vpn.0, 1)), 0),
            ({
                let f = pte_ppn(old(m).word(l2_table_ppn.0, idx(vpn.0, 1)));
                &&& final(self).page_table@.to_set() == old(self).page_table@.to_set().remove(f)
                &&& old(self).page_table@.contains(f) ==> final(alloc).unused_ppns@
                    == old(alloc).unused_ppns@.push(f)
                &&& !old(self).page_table@.contains(f) ==> *final(alloc) == *old(alloc)
            }),
            final(self).page_table@.no_duplicates(),
            final(self).root_ppn == old(self).root_ppn,
            final(alloc).cur_ppn == old(alloc).cur_ppn,
            final(alloc).last_ppn == old(alloc).last_ppn,
    {
        let vidx = vpn.get_table_indexs();
        let l2_entry = PageTableEntry::from(m.read_word(l2_table_ppn.0, vidx[1] as usize));
        m.write_word(l2_table_ppn.0, vidx[1] as usize, PageTableEntry::empty().entry);
        let frame_ppn = l2_entry.to_ppn().0;
        let mut i: usize = 0;
        while i < self.page_table.len() && self.page_table[i] != frame_ppn
            invariant
                i <= self.page_table@.len(),
                self.page_table@ == old(self).page_table@,
                forall|j: int| 0 <= j < i ==> self.page_table@[j] != frame_ppn,
            decreases self.page_table@.len() - i,
        {
            i = i + 1;
        }
        if i < self.page_table.len() {
            let ghost before = self.page_table@;
            self.page_table.remove(i);
            proof {
                assert(before[i as int] == frame_ppn);
                assert(before.contains(frame_ppn));
                assert(self.page_table@.to_set() =~= before.to_set().remove(frame_ppn)) by {
                    assert forall|x: u64| #[trigger] self.page_table@.contains(x) implies before.contains(x)
                        && x != frame_ppn by {
                        let k = choose|k: int| 0 <= k < self.page_table@.len() && self.page_table@[k] == x;
                        if k < i {
                            assert(before[k] == x);
                        } else {
                            assert(before[k + 1] == x);
                        }
                    }
                    assert forall|x: u64| before.contains(x) && x != frame_ppn implies #[trigger] self.page_table@.contains(x) by {
                        let k = choose|k: int| 0 <= k < before.len() && before[k] == x;
                        if k < i {
                            assert(self.page_table@[k] == x);
                        } else {
                            assert(k != i);
                            assert(self.page_table@[k - 1] == x);
                        }
                    }
                }
                assert(self.page_table@.no_duplicates()) by {
                    assert forall|a: int, b: int|
                        0 <= a < b < self.page_table@.len() implies self.page_table@[a] != self.page_table@[b] by {
                        let aa = if a < i { a } else { a + 1 };
                        let bb = if b < i { b } else { b + 1 };
                        assert(self.page_table@[a] == before[aa]);
                        assert(self.page_table@[b] == before[bb]);
                    }
                }
            }
            alloc.dealloc(PhysPageNum(frame_ppn));
        } else {
            proof {
                assert(!old(self).page_table@.contains(frame_ppn));
                assert(self.page_table@.to_set() =~= old(self).page_table@.to_set().remove(frame_ppn));
            }
        }
    }

    /// Clears the leaf entry of `vpn` in leaf table `l3_table_ppn`.
    pub fn clear_l3_entrys(&self, m: &mut PhysMemory, vpn: VirtPageNum, l3_table_ppn: PhysPageNum)
        requires
            old(m).has_frame(l3_table_ppn.0),
        ensures
            final(m).base_ppn == old(m).base_ppn,
            final(m).words@ == old(m).words@.update(old(m).pos(l3_table_ppn.0, idx(vpn.0, 0)), 0),
    {
        let vidx = vpn.get_table_indexs();
        m.write_word(l3_table_ppn.0, vidx[0] as usize, PageTableEntry::empty().entry);
    }

    /// How many frames mapping a page at `vpn` takes for tables.
    pub fn frames_needed_exec(&self, m: &PhysMemory, free: Ghost<Set<u64>>, vpn: VirtPageNum) -> (r: u64)
        requires
            table_ok(*m, self.root_ppn.0, free@),
        ensures
            r == frames_needed(*m, self.root_ppn.0, vpn.0),
    {
        if self.root_ppn.0 == 0 {
            return 3;
        }
        proof {
            lemma_wf_path(*m, self.root_ppn.0, free@, vpn.0);
        }
        let vidx = vpn.get_table_indexs();
        let first_entry = PageTableEntry::from(m.read_word(self.root_ppn.0, vidx[2] as usize));
        if !first_entry.is_valid() {
            return 2;
        }
        let second_entry = PageTableEntry::from(m.read_word(first_entry.to_ppn().0, vidx[1] as usize));
        if !second_entry.is_valid() {
            return 1;
        }
        0
    }

    /// What `vpn` maps to: `None` with no root or where an entry on the way
    /// is not valid.
    pub fn do_table_walk(&self, m: &PhysMemory, vpn: VirtPageNum) -> (r: Option<PhysPageNum>)
        requires
            self.root_ppn.0 != 0 ==> path_in_memory(*m, self.root_ppn.0, vpn.0),
        ensures
            r == (match mapped(*m, self.root_ppn.0, vpn.0) {
                Some(p) => Some(PhysPageNum(p)),
                None => None,
            }),
    {
        if self.root_ppn.0 == 0 {
            return None;
        }
        do_table_walk_in_4k(m, self.root_ppn, vpn)
    }

    /// Maps `vpn` to the existing frame `ppn` with `flags`, making the tables
    /// on the way where they are missing. `vpn` must not be mapped yet;
    /// afterwards it maps to `ppn`, the table is still well formed, and
    /// every page that does not share `vpn`'s entries maps as before.
    #[verifier::rlimit(30)]
    pub fn add_an_existed_page(
        &mut self,
        alloc: &mut StackFrameAllocator,
        m: &mut PhysMemory,
        vpn: VirtPageNum,
        ppn: PhysPageNum,
        flags: RisvPTEFlags,
    )
        requires
            alloc_ok(*old(alloc), *old(m)),
            table_ok(*old(m), old(self).root_ppn.0, old(alloc).free_frames()),
            old(alloc).free_count() >= frames_needed(*old(m), old(self).root_ppn.0, vpn.0),
            mapped(*old(m), old(self).root_ppn.0, vpn.0).is_none(),
            ppn.0 < 0x1000_0000_0000,
        ensures
            mapped(*final(m), final(self).root_ppn.0, vpn.0) == Some(ppn.0),
            forall|v: u64|
                !same_slot(v, vpn.0) ==> #[trigger] mapped(*final(m), final(self).root_ppn.0, v) == mapped(
                    *old(m),
                    old(self).root_ppn.0,
                    v,
                ),
            final(self).root_ppn.0 != 0,
            old(self).root_ppn.0 != 0 ==> final(self).root_ppn == old(self).root_ppn,
            table_ok(*final(m), final(self).root_ppn.0, final(alloc).free_frames()),
            alloc_ok(*final(alloc), *final(m)),
            final(alloc).free_count() + frames_needed(*old(m), old(self).root_ppn.0, vpn.0)
                == old(alloc).free_count(),
            final(alloc).free_frames().subset_of(old(alloc).free_frames()),
            final(m).base_ppn == old(m).base_ppn,
            final(m).words@.len() == old(m).words@.len(),
            final(self).page_table@.to_set() == old(self).page_table@.to_set() + old(
                alloc,
            ).free_frames().difference(final(alloc).free_frames()),
    {
        let leaf = self.check_l2_pointers(alloc, m, vpn);
        let ghost m1 = *m;
        let root = self.root_ppn.0;
        proof {
            lemma_flag_bits(0);
            lemma_idx_bounds(vpn.0);
            lemma_wf_path(m1, root, alloc.free_frames(), vpn.0);
            assert(mapped(m1, root, vpn.0) == mapped(*old(m), old(self).root_ppn.0, vpn.0));
        }
        self.set_l3_pages(m, vpn, ppn, flags, leaf);
        proof {
            let i2 = idx(vpn.0, 2);
            let i1 = idx(vpn.0, 1);
            let i0 = idx(vpn.0, 0);
            let t2 = l2_table(m1, root, vpn.0).unwrap();
            let e = pte_of(ppn.0, 1u8 | flags.bits);
            lemma_write_word_effect(m1, *m, leaf.0, i0, e);
            lemma_pte_round_trip(ppn.0, 1u8 | flags.bits);
            let fb = flags.bits;
            assert((1u8 | fb) & 1u8 == 1u8);
            assert(m.word(root, i2) == m1.word(root, i2));
            assert(m.word(t2, i1) == m1.word(t2, i1));
            assert(l3_table(*m, root, vpn.0) == Some(leaf.0));
            assert(v2(m1, root, i2, i1));
            assert(t3_of(m1, root, i2, i1) == leaf.0);
            assert(one_word_changed(m1, *m, leaf.0, i0));
            lemma_leaf_write(m1, *m, root, alloc.free_frames(), i2, i1, i0);
            assert forall|v: u64| !same_slot(v, vpn.0) implies #[trigger] mapped(*m, root, v) == mapped(
                *old(m),
                old(self).root_ppn.0,
                v,
            ) by {
                assert(mapped(m1, root, v) == mapped(*old(m), old(self).root_ppn.0, v));
                assert(walk(*m, root, v) == walk(m1, root, v));
            }
        }
    }
}

/// Frame `f` serves as one of the tables of the table rooted at `root`.
pub open spec fn is_table(m: PhysMemory, root: u64, f: u64) -> bool {
    ||| f == root
    ||| exists|i: int| #![trigger t2_of(m, root, i)] ix(i) && v1(m, root, i) && t2_of(m, root, i) == f
    ||| exists|i: int, j: int| #![trigger t3_of(m, root, i, j)] ix(i) && ix(j) && v2(m, root, i, j) && t3_of(m, root, i, j) == f
}

/// Handing back a frame that serves as no table keeps the table well
/// formed.
pub proof fn lemma_free_more(m: PhysMemory, root: u64, free: Set<u64>, f: u64)
    requires
        pt_wf(m, root, free),
        !is_table(m, root, f),
    ensures
        pt_wf(m, root, free.insert(f)),
{
    assert forall|i: int| #![trigger t2_of(m, root, i)] ix(i) && v1(m, root, i) implies !free.insert(f).contains(
        t2_of(m, root, i),
    ) by {
        if t2_of(m, root, i) == f {
            assert(is_table(m, root, f));
        }
    }
    assert forall|i: int, j: int| #![trigger t3_of(m, root, i, j)] ix(i) && ix(j) && v2(m, root, i, j) implies !free.insert(
        f,
    ).contains(t3_of(m, root, i, j)) by {
        if t3_of(m, root, i, j) == f {
            assert(is_table(m, root, f));
        }
    }
}

/// Where the tables read the same, the same frames serve as tables.
pub proof fn lemma_is_table_agree(a: PhysMemory, b: PhysMemory, root: u64)
    requires
        tables_agree(a, b, root),
    ensures
        forall|f: u64| #[trigger] is_table(b, root, f) == is_table(a, root, f),
{
    assert forall|i: int| ix(i) implies #[trigger] t2_of(b, root, i) == t2_of(a, root, i) && v1(b, root, i) == v1(
        a,
        root,
        i,
    ) by {
        assert(e1(b, root, i) == e1(a, root, i));
    }
    assert forall|i: int, j: int| ix(i) && ix(j) implies #[trigger] v2(b, root, i, j) == v2(a, root, i, j) && (v2(
        a,
        root,
        i,
        j,
    ) ==> t3_of(b, root, i, j) == t3_of(a, root, i, j)) by {
        assert(e1(b, root, i) == e1(a, root, i));
        if v1(a, root, i) {
            assert(e2(b, root, i, j) == e2(a, root, i, j));
        }
    }
    assert forall|f: u64| #[trigger] is_table(b, root, f) == is_table(a, root, f) by {
        if is_table(a, root, f) && f != root {
            if exists|i: int| #![trigger t2_of(a, root, i)] ix(i) && v1(a, root, i) && t2_of(a, root, i) == f {
                let i = choose|i: int| #![trigger t2_of(a, root, i)] ix(i) && v1(a, root, i) && t2_of(a, root, i) == f;
                assert(t2_of(b, root, i) == f);
            } else {
                let (i, j) = choose|i: int, j: int| #![trigger t3_of(a, root, i, j)] ix(i) && ix(j) && v2(a, root, i, j) && t3_of(a, root, i, j) == f;
                assert(t3_of(b, root, i, j) == f);
            }
        }
        if is_table(b, root, f) && f != root {
            if exists|i: int| #![trigger t2_of(b, root, i)] ix(i) && v1(b, root, i) && t2_of(b, root, i) == f {
                let i = choose|i: int| #![trigger t2_of(b, root, i)] ix(i) && v1(b, root, i) && t2_of(b, root, i) == f;
                assert(t2_of(a, root, i) == f);
            } else {
                let (i, j) = choose|i: int, j: int| #![trigger t3_of(b, root, i, j)] ix(i) && ix(j) && v2(b, root, i, j) && t3_of(b, root, i, j) == f;
                assert(t3_of(a, root, i, j) == f);
            }
        }
    }
}

/// Pushing keeps what a sequence contains and adds the new item.
proof fn lemma_push_keeps(s: Seq<u64>, v: u64)
    ensures
        forall|x: u64| #[trigger] s.push(v).contains(x) <==> s.contains(x) || x == v,
{
    assert forall|x: u64| #[trigger] s.push(v).contains(x) <==> s.contains(x) || x == v by {
        vstd::seq_lib::lemma_seq_contains_after_push(s, v, x);
    }
}

/// The frames that serve as tables of the well-formed table rooted at
/// `root`: the root, then each second-level table followed by its leaf
/// tables.
pub(crate) fn table_frames(m: &PhysMemory, root: u64, free: Ghost<Set<u64>>) -> (r: Vec<u64>)
    requires
        pt_wf(*m, root, free@),
    ensures
        forall|f: u64| #[trigger] is_table(*m, root, f) ==> r@.contains(f),
        forall|q: int| 0 <= q < r@.len() ==> is_table(*m, root, #[trigger] r@[q]),
{
    let mut r: Vec<u64> = Vec::new();
    r.push(root);
    proof {
        lemma_push_keeps(Seq::<u64>::empty(), root);
        assert(r@ == Seq::<u64>::empty().push(root));
    }
    let mut i: usize = 0;
    while i < 512
        invariant
            pt_wf(*m, root, free@),
            i <= 512,
            r@.contains(root),
            forall|q: int| 0 <= q < r@.len() ==> is_table(*m, root, #[trigger] r@[q]),
            forall|k: int| 0 <= k < i && v1(*m, root, k) ==> r@.contains(#[trigger] t2_of(*m, root, k)),
            forall|k: int, j: int| 0 <= k < i && ix(j) && v2(*m, root, k, j) ==> r@.contains(#[trigger] t3_of(*m, root, k, j)),
        decreases 512 - i,
    {
        let e1 = PageTableEntry::from(m.read_word(root, i));
        if e1.is_valid() {
            let t2 = e1.to_ppn().0;
            assert(t2 == t2_of(*m, root, i as int));
            let ghost r0 = r@;
            r.push(t2);
            proof {
                lemma_push_keeps(r0, t2);
                assert(ix(i as int) && v1(*m, root, i as int) && t2_of(*m, root, i as int) == t2);
                assert(is_table(*m, root, t2));
                assert forall|q: int| 0 <= q < r@.len() implies is_table(*m, root, #[trigger] r@[q]) by {
                    if q < r0.len() {
                        assert(r@[q] == r0[q]);
                    }
                }
            }
            let mut j: usize = 0;
            while j < 512
                invariant
                    pt_wf(*m, root, free@),
                    i < 512,
                    j <= 512,
                    v1(*m, root, i as int),
                    t2 == t2_of(*m, root, i as int),
                    m.has_frame(t2),
                    r@.contains(root),
                    r@.contains(t2),
                    forall|q: int| 0 <= q < r@.len() ==> is_table(*m, root, #[trigger] r@[q]),
                    forall|k: int| 0 <= k < i && v1(*m, root, k) ==> r@.contains(#[trigger] t2_of(*m, root, k)),
                    forall|k: int, l: int| 0 <= k < i && ix(l) && v2(*m, root, k, l) ==> r@.contains(#[trigger] t3_of(*m, root, k, l)),
                    forall|l: int| 0 <= l < j && v2(*m, root, i as int, l) ==> r@.contains(#[trigger] t3_of(*m, root, i as int, l)),
                decreases 512 - j,
            {
                let e2 = PageTableEntry::from(m.read_word(t2, j));
                if e2.is_valid() {
                    let t3 = e2.to_ppn().0;
                    assert(t3 == t3_of(*m, root, i as int, j as int));
                    let ghost r1 = r@;
                    r.push(t3);
                    proof {
                        lemma_push_keeps(r1, t3);
                        assert(ix(i as int) && ix(j as int) && v2(*m, root, i as int, j as int) && t3_of(*m, root, i as int, j as int) == t3);
                        assert(is_table(*m, root, t3));
                        assert forall|q: int| 0 <= q < r@.len() implies is_table(*m, root, #[trigger] r@[q]) by {
                            if q < r1.len() {
                                assert(r@[q] == r1[q]);
                            }
                        }
                    }
                }
                j = j + 1;
            }
        }
        i = i + 1;
    }
    proof {
        assert forall|f: u64| #[trigger] is_table(*m, root, f) implies r@.contains(f) by {
            if f != root {
                if exists|k: int| #![trigger t2_of(*m, root, k)] ix(k) && v1(*m, root, k) && t2_of(*m, root, k) == f {
                    let k = choose|k: int| #![trigger t2_of(*m, root, k)] ix(k) && v1(*m, root, k) && t2_of(*m, root, k) == f;
                    assert(r@.contains(t2_of(*m, root, k)));
                } else {
                    let (k, l) = choose|k: int, l: int| #![trigger t3_of(*m, root, k, l)] ix(k) && ix(l) && v2(*m, root, k, l) && t3_of(*m, root, k, l) == f;
                    assert(r@.contains(t3_of(*m, root, k, l)));
                }
            }
        }
    }
    r
}

/// In a well-formed table, a frame serving as a table is a frame of
/// memory.
pub proof fn lemma_table_in_memory(m: PhysMemory, root: u64, free: Set<u64>, f: u64)
    requires
        pt_wf(m, root, free),
        is_table(m, root, f),
    ensures
        m.has_frame(f),
{
    if f != root {
        if exists|i: int| #![trigger t2_of(m, root, i)] ix(i) && v1(m, root, i) && t2_of(m, root, i) == f {
            let i = choose|i: int| #![trigger t2_of(m, root, i)] ix(i) && v1(m, root, i) && t2_of(m, root, i) == f;
        } else {
            let (i, j) = choose|i: int, j: int| #![trigger t3_of(m, root, i, j)] ix(i) && ix(j) && v2(m, root, i, j) && t3_of(m, root, i, j) == f;
        }
    }
}

} // verus!
