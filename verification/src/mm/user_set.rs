//! Areas of an address space whose pages have frames of their own, and
//! the user address spaces built of them.
use vstd::prelude::*;
use crate::mm::address::{
    PhysAddr,
    PhysPageNum,
    StepByOne,
    VirtPageNum,
    VirtualAddr,
    align_down,
    align_up,
    size_2m,
    size_4k,
    USIZE_MAX,
};
use crate::mm::page_table::{
    DynamicPageTable,
    PhysMemory,
    RisvPTEFlags,
    alloc_ok,
    frames_needed,
    idx,
    lemma_idx_arith,
    lemma_idx_bounds,
    mapped,
    same_slot,
    table_frames,
    table_ok,
};
use crate::mm::frame_allocator::{StackFrameAllocator, lemma_alloc_takes_free_frame};
use crate::mm::elf::{ElfImage, ElfSegment, SegmentKind, elf_header_of, elf_segment_of, parse_elf, segments_ok};
use crate::mm::areas::{AreaTable, FrameMap, area_table_view, frame_map_view};
use crate::mm::memory_set::{
    MAP_PERM_R,
    MAP_PERM_U,
    MAP_PERM_W,
    MAP_PERM_X,
    RISV_TRAP_TEXT_STRAT,
    USER_FRAMEBUFFER_MAPPED_ADDR,
    MapPermission,
    get_user_stack_top, get_user_trap_context_start, page_pa, user_stack_top, user_trap_context_start};
use vstd::string::StringExecFns;
use crate::mm::memory_set::MemoryStaticArea;
use crate::mm::page_table::{path_in_memory, walk};

verus! {

/// The page number of page `a`.
pub open spec fn vpn_of(a: VirtualAddr) -> u64 {
    (a.0 / 4096) as u64
}

/// The `k`-th page from page `vs` as the leaf table of `vs` places it: the
/// upper table indices of `vs`, leaf index `(vs + k) mod 512`.
pub open spec fn l3_slot(vs: u64, k: int) -> u64 {
    (vs - vs % 512 + (vs % 512 + k) % 512) as u64
}

/// Page `v` is one of the first `n` slots from `vs` in the leaf table of
/// `vs`.
pub open spec fn in_slots(v: u64, vs: u64, n: int) -> bool {
    &&& idx(v, 2) == idx(vs, 2)
    &&& idx(v, 1) == idx(vs, 1)
    &&& (idx(v, 0) - idx(vs, 0) + 512) % 512 < n
}

/// The key under which the `k`-th page from `vs` is recorded: its page
/// number kept to 27 bits.
pub open spec fn frame_key(vs: u64, k: int) -> u64 {
    ((vs + k) % 0x800_0000) as u64
}

/// `x` is the key of one of the first `n` pages from `vs`.
pub open spec fn key_in(x: u64, vs: u64, n: int) -> bool {
    x < 0x800_0000 && (x - vs % 0x800_0000 + 0x800_0000) % 0x800_0000 < n
}

/// The first `n` pages from `vs` are recorded in `fm`, and their slots map
/// to the frames recorded.
pub open spec fn frames_mapped(m: PhysMemory, root: u64, fm: Map<u64, u64>, vs: u64, n: int) -> bool {
    forall|k: int|
        0 <= k < n ==> #[trigger] fm.contains_key(frame_key(vs, k)) && mapped(m, root, l3_slot(vs, k)) == Some(
            fm[frame_key(vs, k)],
        )
}

/// Where the `k`-th slot from `vs` lies, for `k` below 512.
#[verifier::spinoff_prover]
#[verifier::rlimit(50)]
pub proof fn lemma_slot(vs: u64, k: int)
    requires
        0 <= k < 512,
        vs < 0x10_0000_0000_0000,
    ensures
        idx(l3_slot(vs, k), 2) == idx(vs, 2),
        idx(l3_slot(vs, k), 1) == idx(vs, 1),
        idx(l3_slot(vs, k), 0) == (vs % 512 + k) % 512,
        forall|n: int| #[trigger] in_slots(l3_slot(vs, k), vs, n) <==> k < n,
        key_in(frame_key(vs, k), vs, k + 1),
        !key_in(frame_key(vs, k), vs, k),
{
    let s = l3_slot(vs, k);
    let r = vs % 512;
    let r2 = (r + k) % 512;
    let q = vs / 512;
    lemma_idx_arith(vs);
    lemma_idx_arith(s);
    vstd::arithmetic::div_mod::lemma_fundamental_div_mod(vs as int, 512);
    assert(s == q * 512 + r2);
    vstd::arithmetic::div_mod::lemma_fundamental_div_mod_converse(s as int, 512, q as int, r2 as int);
    vstd::arithmetic::div_mod::lemma_div_denominator(vs as int, 512, 512);
    vstd::arithmetic::div_mod::lemma_div_denominator(s as int, 512, 512);
    assert((r2 - r + 512) % 512 == k);
    let x = frame_key(vs, k);
    assert((x - vs % 0x800_0000 + 0x800_0000) % 0x800_0000 == k);
}

/// The leaf-index distance from `r` to `d` is `i` just when `d` is `i`
/// places after `r`, around the table.
#[verifier::spinoff_prover]
#[verifier::rlimit(50)]
proof fn lemma_offset(d: int, r: int, i: int)
    requires
        0 <= d < 512,
        0 <= r < 512,
        0 <= i < 512,
    ensures
        ((d - r + 512) % 512 == i) == (d == (r + i) % 512),
        (d - r + 512) % 512 < i + 1 <==> ((d - r + 512) % 512 < i || (d - r + 512) % 512 == i),
{
    if d >= r {
        vstd::arithmetic::div_mod::lemma_fundamental_div_mod_converse(d - r + 512, 512, 1, d - r);
    } else {
        vstd::arithmetic::div_mod::lemma_fundamental_div_mod_converse(d - r + 512, 512, 0, d - r + 512);
    }
    if r + i < 512 {
        vstd::arithmetic::div_mod::lemma_fundamental_div_mod_converse(r + i, 512, 0, r + i);
    } else {
        vstd::arithmetic::div_mod::lemma_fundamental_div_mod_converse(r + i, 512, 1, r + i - 512);
    }
}

/// One more page: the keys of the first `i + 1` pages are those of the
/// first `i` and the key of page `i`; likewise the slots.
#[verifier::spinoff_prover]
#[verifier::rlimit(50)]
pub proof fn lemma_range_step(vs: u64, i: int)
    requires
        0 <= i < 512,
        vs < 0x10_0000_0000_0000,
    ensures
        forall|x: u64| #[trigger] key_in(x, vs, i + 1) == (key_in(x, vs, i) || x == frame_key(vs, i)),
        forall|v: u64| #[trigger] in_slots(v, vs, i + 1) == (in_slots(v, vs, i) || same_slot(v, l3_slot(vs, i))),
        forall|k: int| 0 <= k < 512 && k != i ==> !same_slot(#[trigger] l3_slot(vs, k), l3_slot(vs, i)),
        forall|k: int| 0 <= k < 512 && k != i ==> #[trigger] frame_key(vs, k) != frame_key(vs, i),
{
    lemma_slot(vs, i);
    assert forall|x: u64| #[trigger] key_in(x, vs, i + 1) == (key_in(x, vs, i) || x == frame_key(vs, i)) by {
        if x < 0x800_0000 && (x - vs % 0x800_0000 + 0x800_0000) % 0x800_0000 == i {
            assert(x == frame_key(vs, i));
        }
    }
    assert forall|v: u64| #[trigger] in_slots(v, vs, i + 1) == (in_slots(v, vs, i) || same_slot(v, l3_slot(vs, i))) by {
        lemma_idx_bounds(v);
        lemma_idx_bounds(vs);
        lemma_idx_arith(vs);
        lemma_offset(idx(v, 0), idx(vs, 0), i);
    }
    assert forall|k: int| 0 <= k < 512 && k != i implies !same_slot(#[trigger] l3_slot(vs, k), l3_slot(vs, i)) by {
        lemma_slot(vs, k);
    }
}

/// The key of the `i`-th page from `vs` has the leaf index of its slot.
#[verifier::spinoff_prover]
#[verifier::rlimit(50)]
proof fn lemma_key_idx(vs: u64, i: int)
    requires
        0 <= i < 512,
        vs < 0x10_0000_0000_0000,
    ensures
        idx(frame_key(vs, i), 0) == idx(l3_slot(vs, i), 0),
{
    lemma_slot(vs, i);
    lemma_idx_arith(frame_key(vs, i));
    vstd::arithmetic::div_mod::lemma_mod_mod(vs + i, 512, 0x4_0000);
}

/// The slot of the `i`-th page from `vs` in a well-formed table, where
/// the leaf table of `vs` is `l3` and the slot maps nothing: `l3` is a
/// frame of memory whose entry at the page key's leaf index is not valid.
#[verifier::spinoff_prover]
#[verifier::rlimit(50)]
proof fn lemma_slot_free(m: PhysMemory, root: u64, free: Set<u64>, vs: u64, i: int, l3: u64)
    requires
        crate::mm::page_table::pt_wf(m, root, free),
        crate::mm::page_table::l3_table(m, root, vs) == Some(l3),
        0 <= i < 512,
        vs < 0x10_0000_0000_0000,
        mapped(m, root, l3_slot(vs, i)).is_none(),
    ensures
        m.has_frame(l3),
        idx(frame_key(vs, i), 0) == idx(l3_slot(vs, i), 0),
        crate::mm::page_table::l3_table(m, root, l3_slot(vs, i)) == Some(l3),
        !crate::mm::page_table::pte_valid(m.word(l3, idx(frame_key(vs, i), 0))),
{
    lemma_slot(vs, i);
    lemma_key_idx(vs, i);
    crate::mm::page_table::lemma_wf_path(m, root, free, vs);
}

/// Entering frame `p` in the free slot of the `i`-th page from `vs` (leaf
/// table `l3`) keeps the table well formed, maps the slot to `p`, and
/// changes no other page.
#[verifier::spinoff_prover]
#[verifier::rlimit(50)]
proof fn lemma_slot_write(
    a: PhysMemory,
    b: PhysMemory,
    root: u64,
    free: Set<u64>,
    vs: u64,
    i: int,
    l3: u64,
    p: u64,
    flags: u8,
)
    requires
        crate::mm::page_table::pt_wf(a, root, free),
        crate::mm::page_table::l3_table(a, root, vs) == Some(l3),
        0 <= i < 512,
        vs < 0x10_0000_0000_0000,
        p < 0x1000_0000_0000,
        a.has_frame(l3),
        idx(frame_key(vs, i), 0) == idx(l3_slot(vs, i), 0),
        crate::mm::page_table::l3_table(a, root, l3_slot(vs, i)) == Some(l3),
        b.base_ppn == a.base_ppn,
        b.words@ == a.words@.update(a.pos(l3, idx(l3_slot(vs, i), 0)), crate::mm::page_table::pte_of(p, 1u8 | flags)),
    ensures
        crate::mm::page_table::pt_wf(b, root, free),
        crate::mm::page_table::l3_table(b, root, vs) == Some(l3),
        mapped(b, root, l3_slot(vs, i)) == Some(p),
        forall|v: u64| !same_slot(v, l3_slot(vs, i)) ==> #[trigger] mapped(b, root, v) == mapped(a, root, v),
        forall|q: u64| #[trigger] b.has_frame(q) == a.has_frame(q),
        b.words@.len() == a.words@.len(),
{
    let s_i = l3_slot(vs, i);
    lemma_slot(vs, i);
    let i2 = idx(vs, 2);
    let i1 = idx(vs, 1);
    let i0 = idx(s_i, 0);
    let e = crate::mm::page_table::pte_of(p, 1u8 | flags);
    lemma_idx_bounds(vs);
    lemma_idx_bounds(s_i);
    crate::mm::page_table::lemma_write_word_effect(a, b, l3, i0, e);
    crate::mm::page_table::lemma_pte_round_trip(p, 1u8 | flags);
    crate::mm::page_table::lemma_flag_bits(0);
    assert((1u8 | flags) & 1u8 == 1u8);
    assert(crate::mm::page_table::v2(a, root, i2, i1));
    assert(crate::mm::page_table::t3_of(a, root, i2, i1) == l3);
    crate::mm::page_table::lemma_leaf_write(a, b, root, free, i2, i1, i0);
    assert(crate::mm::page_table::l3_table(b, root, s_i) == Some(l3));
    assert(mapped(b, root, s_i) == Some(p));
    assert forall|v: u64| !same_slot(v, s_i) implies #[trigger] mapped(b, root, v) == mapped(a, root, v) by {}
}

/// Clearing the entry in the slot of the `i`-th page from `vs` (leaf
/// table `l3`) keeps the table well formed with the same tables, maps the
/// slot to nothing, and changes no other page.
#[verifier::spinoff_prover]
#[verifier::rlimit(50)]
proof fn lemma_slot_clear(a: PhysMemory, b: PhysMemory, root: u64, free: Set<u64>, vs: u64, i: int, l3: u64)
    requires
        crate::mm::page_table::pt_wf(a, root, free),
        crate::mm::page_table::l3_table(a, root, vs) == Some(l3),
        0 <= i < 512,
        vs < 0x10_0000_0000_0000,
        a.has_frame(l3),
        b.base_ppn == a.base_ppn,
        b.words@ == a.words@.update(a.pos(l3, idx(l3_slot(vs, i), 0)), 0),
    ensures
        crate::mm::page_table::pt_wf(b, root, free),
        crate::mm::page_table::l3_table(b, root, vs) == Some(l3),
        mapped(b, root, l3_slot(vs, i)).is_none(),
        forall|v: u64| !same_slot(v, l3_slot(vs, i)) ==> #[trigger] mapped(b, root, v) == mapped(a, root, v),
        forall|f: u64| #[trigger] crate::mm::page_table::is_table(b, root, f) == crate::mm::page_table::is_table(a, root, f),
        forall|q: u64| #[trigger] b.has_frame(q) == a.has_frame(q),
        b.words@.len() == a.words@.len(),
{
    let s_i = l3_slot(vs, i);
    lemma_slot(vs, i);
    let i2 = idx(vs, 2);
    let i1 = idx(vs, 1);
    let i0 = idx(s_i, 0);
    lemma_idx_bounds(vs);
    lemma_idx_bounds(s_i);
    crate::mm::page_table::lemma_write_word_effect(a, b, l3, i0, 0);
    crate::mm::page_table::lemma_flag_bits(0);
    assert(crate::mm::page_table::v2(a, root, i2, i1));
    assert(crate::mm::page_table::t3_of(a, root, i2, i1) == l3);
    crate::mm::page_table::lemma_leaf_write(a, b, root, free, i2, i1, i0);
    assert(crate::mm::page_table::l3_table(b, root, s_i) == Some(l3));
    assert(mapped(b, root, s_i).is_none());
    assert forall|v: u64| !same_slot(v, s_i) implies #[trigger] mapped(b, root, v) == mapped(a, root, v) by {}
    assert(l3 != root);
    assert forall|k: int| #![trigger crate::mm::page_table::e1(b, root, k)] crate::mm::page_table::ix(k) implies crate::mm::page_table::e1(
        b,
        root,
        k,
    ) == crate::mm::page_table::e1(a, root, k) by {}
    assert forall|k: int, j: int|
        #![trigger crate::mm::page_table::e2(b, root, k, j)]
        crate::mm::page_table::ix(k) && crate::mm::page_table::ix(j) && crate::mm::page_table::v1(
            a,
            root,
            k,
        ) implies crate::mm::page_table::e2(b, root, k, j) == crate::mm::page_table::e2(a, root, k, j) by {
        assert(l3 != crate::mm::page_table::t2_of(a, root, k));
    }
    assert(crate::mm::page_table::tables_agree(a, b, root));
    crate::mm::page_table::lemma_is_table_agree(a, b, root);
}

/// The frames that `fm` records for the first `n` pages from `vs`.
pub open spec fn range_frames(fm: Map<u64, u64>, vs: u64, n: int) -> Set<u64> {
    Set::new(
        |q: u64| exists|k: int| 0 <= k < n && fm.contains_key(frame_key(vs, k)) && #[trigger] fm[frame_key(vs, k)] == q,
    )
}

/// `tables` lists every frame that serves as a table of the table at
/// `root`.
pub open spec fn lists_tables(m: PhysMemory, root: u64, tables: Seq<u64>) -> bool {
    forall|f: u64| #[trigger] crate::mm::page_table::is_table(m, root, f) ==> tables.contains(f)
}

/// Whether `f` is one of `tables`.
fn frame_listed(tables: &Vec<u64>, f: u64) -> (r: bool)
    ensures
        r == tables@.contains(f),
{
    let mut i: usize = 0;
    while i < tables.len()
        invariant
            i <= tables@.len(),
            forall|k: int| 0 <= k < i ==> tables@[k] != f,
        decreases tables@.len() - i,
    {
        if tables[i] == f {
            return true;
        }
        i = i + 1;
    }
    false
}

/// Slots and keys of the first `i` pages from `vs` are among those of the
/// first `n`, for `i` up to `n`.
proof fn lemma_in_slots_grow(v: u64, vs: u64, i: int, n: int)
    requires
        i <= n,
        in_slots(v, vs, i),
    ensures
        in_slots(v, vs, n),
{
}

/// See `lemma_in_slots_grow`.
proof fn lemma_key_in_grow(x: u64, vs: u64, i: int, n: int)
    requires
        i <= n,
        key_in(x, vs, i),
    ensures
        key_in(x, vs, n),
{
}

/// Page `v` lies outside the slots of the ranges of area `a`.
pub open spec fn outside_area(v: u64, a: MemoryStaticArea) -> bool {
    let r = area_ranges(a);
    !in_slots(v, r.0, r.1) && !in_slots(v, r.2, r.3)
}

/// The slots of the ranges of area `a` map nothing.
pub open spec fn area_unmapped(a: MemoryStaticArea, m: PhysMemory, root: u64) -> bool {
    let r = area_ranges(a);
    &&& forall|k: int| 0 <= k < r.1 ==> mapped(m, root, #[trigger] l3_slot(r.0, k)).is_none()
    &&& forall|k: int| 0 <= k < r.3 ==> mapped(m, root, #[trigger] l3_slot(r.2, k)).is_none()
}

/// What `remove_user_map` does to address space `s1` (giving `s2`),
/// allocator `a1` (giving `a2`) and memory `m1` (giving `m2`) for the area
/// named `name`, with result `r`: the table stays well formed with the
/// same tables, at most that area goes, and no page outside its slots
/// changes; nothing changes when there is no such area (or no root); on
/// success the area is gone, its slots map nothing and its frames are
/// free.
pub open spec fn user_unmap_post(
    s1: UserMemorySets,
    s2: UserMemorySets,
    a1: StackFrameAllocator,
    a2: StackFrameAllocator,
    m1: PhysMemory,
    m2: PhysMemory,
    name: Seq<char>,
    r: bool,
) -> bool {
    let root = s1.table.root_ppn.0;
    &&& s2.table == s1.table
    &&& alloc_ok(a2, m2)
    &&& table_ok(m2, root, a2.free_frames())
    &&& a1.free_frames().subset_of(a2.free_frames())
    &&& forall|f: u64| #[trigger] crate::mm::page_table::is_table(m2, root, f) == crate::mm::page_table::is_table(m1, root, f)
    &&& areas(s2) == areas(s1) || areas(s2) == areas(s1).remove(name)
    &&& !areas(s1).contains_key(name) || root == 0 ==> !r && s2 == s1 && a2 == a1 && m2 == m1
    &&& areas(s1).contains_key(name) ==> {
        let a = areas(s1)[name];
        let rg = area_ranges(a.area);
        &&& forall|v: u64| outside_area(v, a.area) ==> #[trigger] mapped(m2, root, v) == mapped(m1, root, v)
        &&& r ==> {
            &&& areas(s2) == areas(s1).remove(name)
            &&& area_mappable(a.area)
            &&& area_unmapped(a.area, m2, root)
            &&& a2.free_frames() == a1.free_frames() + range_frames(frame_map_view(a.mem_frames), rg.0, rg.1)
                + range_frames(frame_map_view(a.mem_frames), rg.2, rg.3)
        }
    }
}

/// Adding an area and then taking it out again leaves the areas as they
/// were and every page mapping as it did.
pub proof fn lemma_map_then_unmap(
    s0: UserMemorySets,
    s1: UserMemorySets,
    s2: UserMemorySets,
    a0: StackFrameAllocator,
    a1: StackFrameAllocator,
    a2: StackFrameAllocator,
    m0: PhysMemory,
    m1: PhysMemory,
    m2: PhysMemory,
    name: Seq<char>,
    area: MemoryStaticArea,
)
    requires
        area_free(m0, s0.table.root_ppn.0, no_frames(), area),
        user_map_post(s0, s1, a0, a1, m0, m1, name, area, true),
        user_unmap_post(s1, s2, a1, a2, m1, m2, name, true),
    ensures
        areas(s2) == areas(s0),
        forall|v: u64| #[trigger] mapped(m2, s2.table.root_ppn.0, v) == mapped(m0, s0.table.root_ppn.0, v),
{
    let fb = areas(s1)[name];
    assert(areas(s1).contains_key(name));
    assert(areas(s2) =~= areas(s0)) by {
        if areas(s0).contains_key(name) {
            assert(!(areas(s0).dom() =~= Set::<Seq<char>>::empty()));
        }
    }
    let root1 = s1.table.root_ppn.0;
    let r = area_ranges(area);
    lemma_area_ranges(area);
    assert forall|v: u64| #[trigger] mapped(m2, s2.table.root_ppn.0, v) == mapped(m0, s0.table.root_ppn.0, v) by {
        if outside_area(v, area) {
            assert(mapped(m2, root1, v) == mapped(m1, root1, v));
        } else {
            lemma_unmapped_slot(area, m2, root1, v);
            if in_slots(v, r.0, r.1) {
                lemma_in_slots_witness(v, r.0, r.1);
                let k = (idx(v, 0) - idx(r.0, 0) + 512) % 512;
                lemma_same_slot_mapped(m0, s0.table.root_ppn.0, v, l3_slot(r.0, k));
            } else {
                lemma_in_slots_witness(v, r.2, r.3);
                let k = (idx(v, 0) - idx(r.2, 0) + 512) % 512;
                lemma_same_slot_mapped(m0, s0.table.root_ppn.0, v, l3_slot(r.2, k));
            }
        }
    }
}

/// A page in the slots of an unmapped area maps nothing.
proof fn lemma_unmapped_slot(a: MemoryStaticArea, m: PhysMemory, root: u64, v: u64)
    requires
        area_unmapped(a, m, root),
        !outside_area(v, a),
        area_ranges(a).0 < 0x800_0000,
        area_ranges(a).1 <= 512,
        area_ranges(a).2 < 0x800_0000,
        area_ranges(a).3 <= 512,
    ensures
        mapped(m, root, v).is_none(),
{
    let r = area_ranges(a);
    if in_slots(v, r.0, r.1) {
        lemma_in_slots_witness(v, r.0, r.1);
        let k = (idx(v, 0) - idx(r.0, 0) + 512) % 512;
        lemma_same_slot_mapped(m, root, v, l3_slot(r.0, k));
    } else {
        lemma_in_slots_witness(v, r.2, r.3);
        let k = (idx(v, 0) - idx(r.2, 0) + 512) % 512;
        lemma_same_slot_mapped(m, root, v, l3_slot(r.2, k));
    }
}

/// What `unmap_area` does to area `a` (giving `b`), allocator `aa`
/// (giving `ab`) and memory `ma` (giving `mb`), with result `r`: the table
/// stays well formed with the same tables and no page outside the area's
/// slots changes; on success the slots map nothing, the area keeps no
/// frame of its ranges, and those frames are free.
pub open spec fn area_unmap_post(
    a: FrameBasedArea,
    b: FrameBasedArea,
    root: u64,
    aa: StackFrameAllocator,
    ab: StackFrameAllocator,
    ma: PhysMemory,
    mb: PhysMemory,
    r: bool,
) -> bool {
    let fa = frame_map_view(a.mem_frames);
    let fb = frame_map_view(b.mem_frames);
    let rg = area_ranges(a.area);
    &&& alloc_ok(ab, mb)
    &&& crate::mm::page_table::pt_wf(mb, root, ab.free_frames())
    &&& forall|f: u64| #[trigger] crate::mm::page_table::is_table(mb, root, f) == crate::mm::page_table::is_table(ma, root, f)
    &&& forall|v: u64| outside_area(v, a.area) ==> #[trigger] mapped(mb, root, v) == mapped(ma, root, v)
    &&& forall|x: u64| #[trigger] fb.contains_key(x) ==> fa.contains_key(x) && fb[x] == fa[x]
    &&& aa.free_frames().subset_of(ab.free_frames())
    &&& ab.cur_ppn == aa.cur_ppn
    &&& ab.last_ppn == aa.last_ppn
    &&& mb.base_ppn == ma.base_ppn
    &&& mb.words@.len() == ma.words@.len()
    &&& b.area == a.area
    &&& r ==> {
        &&& area_unmapped(a.area, mb, root)
        &&& forall|x: u64| #[trigger] fb.contains_key(x) == (fa.contains_key(x) && !key_in(x, rg.0, rg.1) && !key_in(x, rg.2, rg.3))
        &&& ab.free_frames() == aa.free_frames() + range_frames(fa, rg.0, rg.1) + range_frames(fa, rg.2, rg.3)
    }
}

/// What `free_l3_frames` does to area `a` (giving `b`), allocator `aa`
/// (giving `ab`) and memory `ma` (giving `mb`) on the `n` pages from
/// `vs`, with result `r`: the table stays well formed with the same
/// tables and no page outside the slots changes; on success the slots map
/// nothing, the pages' keys are gone and their frames are free.
pub open spec fn frees_post(
    a: FrameBasedArea,
    b: FrameBasedArea,
    root: u64,
    aa: StackFrameAllocator,
    ab: StackFrameAllocator,
    ma: PhysMemory,
    mb: PhysMemory,
    vs: u64,
    n: int,
    r: bool,
) -> bool {
    let fa = frame_map_view(a.mem_frames);
    let fb = frame_map_view(b.mem_frames);
    &&& alloc_ok(ab, mb)
    &&& crate::mm::page_table::pt_wf(mb, root, ab.free_frames())
    &&& forall|f: u64| #[trigger] crate::mm::page_table::is_table(mb, root, f) == crate::mm::page_table::is_table(ma, root, f)
    &&& forall|v: u64| !in_slots(v, vs, n) ==> #[trigger] mapped(mb, root, v) == mapped(ma, root, v)
    &&& forall|x: u64| #[trigger] fb.contains_key(x) ==> fa.contains_key(x) && fb[x] == fa[x]
    &&& forall|x: u64| #[trigger] fa.contains_key(x) && !key_in(x, vs, n) ==> fb.contains_key(x)
    &&& aa.free_frames().subset_of(ab.free_frames())
    &&& ab.cur_ppn == aa.cur_ppn
    &&& ab.last_ppn == aa.last_ppn
    &&& mb.base_ppn == ma.base_ppn
    &&& mb.words@.len() == ma.words@.len()
    &&& b.area == a.area
    &&& r ==> {
        &&& forall|k: int| 0 <= k < n ==> mapped(mb, root, #[trigger] l3_slot(vs, k)).is_none()
        &&& forall|x: u64| #[trigger] fb.contains_key(x) == (fa.contains_key(x) && !key_in(x, vs, n))
        &&& ab.free_frames() == aa.free_frames() + range_frames(fa, vs, n)
    }
}

/// The ranges of pages that mapping area `a` gives frames, as (first
/// page, count) twice: the pages below and above the 2 MiB blocks that
/// the area spans, or all its pages and an empty range when it spans no
/// whole block.
pub open spec fn area_ranges(a: MemoryStaticArea) -> (u64, int, u64, int) {
    let s = a.vaddr_start.0 as nat;
    let e = a.vaddr_end.0 as nat;
    let rs = align_down(s, size_4k());
    let re = align_up(e, size_4k());
    let sb = align_up(s, size_2m());
    let eb = align_down(e, size_2m());
    if sb < eb {
        ((rs / 4096) as u64, (sb - rs) / 4096, (eb / 4096) as u64, (re - eb) / 4096)
    } else {
        ((rs / 4096) as u64, (re - rs) / 4096, 0, 0)
    }
}

/// Area `a` can be mapped: its addresses are Sv39 addresses, each of its
/// ranges has at most 512 pages and the first at least one; when it spans
/// whole blocks, the second has at least one page and the blocks span less
/// than 8 GiB.
pub open spec fn area_mappable(a: MemoryStaticArea) -> bool {
    let r = area_ranges(a);
    let sb = align_up(a.vaddr_start.0 as nat, size_2m());
    let eb = align_down(a.vaddr_end.0 as nat, size_2m());
    &&& a.vaddr_start.0 < 0x80_0000_0000
    &&& a.vaddr_end.0 < 0x80_0000_0000
    &&& 1 <= r.1 <= 512
    &&& 0 <= r.3 <= 512
    &&& sb < eb ==> r.3 >= 1 && eb - sb < 0x2_0000_0000
}

/// No page of area `a` is mapped yet, and none has a frame in `fm`.
pub open spec fn area_free(m: PhysMemory, root: u64, fm: Map<u64, u64>, a: MemoryStaticArea) -> bool {
    let r = area_ranges(a);
    &&& forall|k: int| 0 <= k < r.1 ==> mapped(m, root, #[trigger] l3_slot(r.0, k)).is_none()
    &&& forall|k: int| 0 <= k < r.3 ==> mapped(m, root, #[trigger] l3_slot(r.2, k)).is_none()
    &&& forall|k: int| 0 <= k < r.1 ==> !fm.contains_key(#[trigger] frame_key(r.0, k))
    &&& forall|k: int| 0 <= k < r.3 ==> !fm.contains_key(#[trigger] frame_key(r.2, k))
}

/// What `map_area` does: each page of each range of the area has a
/// frame that was free, mapped through its slot and recorded under its
/// key; every other page maps as before, and the other keys keep their
/// frames.
pub open spec fn area_mapped_post(
    area: MemoryStaticArea,
    fm_a: Map<u64, u64>,
    fm_b: Map<u64, u64>,
    ta: DynamicPageTable,
    tb: DynamicPageTable,
    aa: StackFrameAllocator,
    ab: StackFrameAllocator,
    ma: PhysMemory,
    mb: PhysMemory,
) -> bool {
    let r = area_ranges(area);
    &&& alloc_ok(ab, mb)
    &&& table_ok(mb, tb.root_ppn.0, ab.free_frames())
    &&& tb.root_ppn.0 != 0
    &&& ta.root_ppn.0 != 0 ==> tb.root_ppn == ta.root_ppn
    &&& frames_mapped(mb, tb.root_ppn.0, fm_b, r.0, r.1)
    &&& frames_mapped(mb, tb.root_ppn.0, fm_b, r.2, r.3)
    &&& forall|k: int|
        0 <= k < r.1 ==> aa.free_frames().contains(#[trigger] fm_b[frame_key(r.0, k)]) && !ab.free_frames().contains(
            fm_b[frame_key(r.0, k)],
        )
    &&& forall|k: int|
        0 <= k < r.3 ==> aa.free_frames().contains(#[trigger] fm_b[frame_key(r.2, k)]) && !ab.free_frames().contains(
            fm_b[frame_key(r.2, k)],
        )
    &&& forall|v: u64|
        !in_slots(v, r.0, r.1) && !in_slots(v, r.2, r.3) ==> #[trigger] mapped(mb, tb.root_ppn.0, v) == mapped(
            ma,
            ta.root_ppn.0,
            v,
        )
    &&& forall|x: u64|
        #[trigger] fm_b.contains_key(x) == (fm_a.contains_key(x) || key_in(x, r.0, r.1) || key_in(x, r.2, r.3))
    &&& forall|x: u64| #[trigger] fm_a.contains_key(x) ==> fm_b[x] == fm_a[x]
    &&& ab.free_frames().subset_of(aa.free_frames())
    &&& ab.free_count() + r.1 + r.3 <= aa.free_count()
    &&& mb.base_ppn == ma.base_ppn
    &&& mb.words@.len() == ma.words@.len()
    &&& ta.page_table@.to_set().subset_of(tb.page_table@.to_set())
    &&& tb.page_table@.to_set().subset_of(ta.page_table@.to_set() + aa.free_frames())
}

/// Pages in different 2 MiB blocks of the Sv39 space lie in different leaf
/// tables.
#[verifier::spinoff_prover]
#[verifier::rlimit(50)]
proof fn lemma_blocks_apart(v: u64, w: u64)
    requires
        v < 0x800_0000,
        w < 0x800_0000,
        v / 512 != w / 512,
    ensures
        idx(v, 2) != idx(w, 2) || idx(v, 1) != idx(w, 1),
{
    lemma_idx_arith(v);
    lemma_idx_arith(w);
    vstd::arithmetic::div_mod::lemma_div_denominator(v as int, 512, 512);
    vstd::arithmetic::div_mod::lemma_div_denominator(w as int, 512, 512);
    vstd::arithmetic::div_mod::lemma_fundamental_div_mod((v / 512) as int, 512);
    vstd::arithmetic::div_mod::lemma_fundamental_div_mod((w / 512) as int, 512);
}

/// The ranges of a mappable area: their pages are Sv39 pages; the first
/// range starts at the area's first page and its keys are its page
/// numbers; when there are two, they lie in different 2 MiB blocks and
/// neither range's slots or keys meet the other's.
#[verifier::spinoff_prover]
#[verifier::rlimit(80)]
proof fn lemma_area_ranges(a: MemoryStaticArea)
    requires
        area_mappable(a),
    ensures
        ({
            let r = area_ranges(a);
            &&& r.0 < 0x800_0000
            &&& r.0 + r.1 <= 0x800_0000
            &&& r.2 + r.3 <= 0x800_0000
            &&& r.0 == align_down(a.vaddr_start.0 as nat, size_4k()) / 4096
            &&& r.3 > 0 ==> r.2 == align_down(a.vaddr_end.0 as nat, size_2m()) / 4096
            &&& r.3 > 0 ==> r.0 + r.1 == align_up(a.vaddr_start.0 as nat, size_2m()) / 4096
            &&& r.3 > 0 ==> r.2 + r.3 == align_up(a.vaddr_end.0 as nat, size_4k()) / 4096
            &&& r.3 == 0 ==> r.0 + r.1 == align_up(a.vaddr_end.0 as nat, size_4k()) / 4096
            &&& forall|k: int| 0 <= k < r.3 ==> !in_slots(#[trigger] l3_slot(r.2, k), r.0, r.1)
            &&& forall|k: int| 0 <= k < r.1 ==> !in_slots(#[trigger] l3_slot(r.0, k), r.2, r.3)
            &&& forall|k: int| 0 <= k < r.3 ==> !key_in(#[trigger] frame_key(r.2, k), r.0, r.1)
            &&& forall|k: int| 0 <= k < r.1 ==> !key_in(#[trigger] frame_key(r.0, k), r.2, r.3)
        }),
{
    let s = a.vaddr_start.0 as nat;
    let e = a.vaddr_end.0 as nat;
    let rs = align_down(s, size_4k());
    let re = align_up(e, size_4k());
    let sb = align_up(s, size_2m());
    let eb = align_down(e, size_2m());
    let r = area_ranges(a);
    vstd::arithmetic::div_mod::lemma_fundamental_div_mod(s as int, 4096);
    vstd::arithmetic::div_mod::lemma_fundamental_div_mod((e + 4095) as int, 4096);
    vstd::arithmetic::div_mod::lemma_fundamental_div_mod((s + 0x1F_FFFF) as int, 0x20_0000);
    vstd::arithmetic::div_mod::lemma_fundamental_div_mod(e as int, 0x20_0000);
    let qs = s / 4096;
    let qe = (e + 4095) / 4096;
    let bs = (s + 0x1F_FFFF) / 0x20_0000;
    let be = e / 0x20_0000;
    assert(rs == 4096 * qs);
    assert(re == 4096 * qe);
    assert(sb == 0x20_0000 * bs);
    assert(eb == 0x20_0000 * be);
    vstd::arithmetic::div_mod::lemma_fundamental_div_mod_converse(rs as int, 4096, qs as int, 0);
    vstd::arithmetic::div_mod::lemma_fundamental_div_mod_converse(re as int, 4096, qe as int, 0);
    vstd::arithmetic::div_mod::lemma_fundamental_div_mod_converse(sb as int, 4096, (512 * bs) as int, 0);
    vstd::arithmetic::div_mod::lemma_fundamental_div_mod_converse(eb as int, 4096, (512 * be) as int, 0);
    assert(qe <= 0x800_0000);
    if sb < eb {
        vstd::arithmetic::div_mod::lemma_fundamental_div_mod_converse((sb - rs) as int, 4096, 512 * bs - qs, 0);
        vstd::arithmetic::div_mod::lemma_fundamental_div_mod_converse((re - eb) as int, 4096, qe - 512 * be, 0);
        assert(r.0 == qs && r.1 == 512 * bs - qs && r.2 == 512 * be && r.3 == qe - 512 * be);
        assert(bs <= be);
        let v1 = r.0;
        let v2 = r.2;
        vstd::arithmetic::div_mod::lemma_fundamental_div_mod_converse(v2 as int, 512, be as int, 0);
        assert(v1 < 512 * bs);
        vstd::arithmetic::div_mod::lemma_fundamental_div_mod(v1 as int, 512);
        assert(v1 / 512 < bs);
        assert(v1 / 512 != v2 / 512);
        lemma_blocks_apart(v1, v2);
        assert forall|k: int| 0 <= k < r.3 implies !in_slots(#[trigger] l3_slot(r.2, k), r.0, r.1) by {
            lemma_slot(r.2, k);
        }
        assert forall|k: int| 0 <= k < r.1 implies !in_slots(#[trigger] l3_slot(r.0, k), r.2, r.3) by {
            lemma_slot(r.0, k);
        }
        assert forall|k: int| 0 <= k < r.3 implies !key_in(#[trigger] frame_key(r.2, k), r.0, r.1) by {
            let x = frame_key(r.2, k);
            vstd::arithmetic::div_mod::lemma_fundamental_div_mod_converse(v2 + k, 0x800_0000, 0, v2 + k);
            vstd::arithmetic::div_mod::lemma_fundamental_div_mod_converse(v1 as int, 0x800_0000, 0, v1 as int);
            vstd::arithmetic::div_mod::lemma_fundamental_div_mod_converse(
                x - v1 + 0x800_0000,
                0x800_0000,
                1,
                x - v1,
            );
        }
        assert forall|k: int| 0 <= k < r.1 implies !key_in(#[trigger] frame_key(r.0, k), r.2, r.3) by {
            let x = frame_key(r.0, k);
            vstd::arithmetic::div_mod::lemma_fundamental_div_mod_converse(v1 + k, 0x800_0000, 0, v1 + k);
            vstd::arithmetic::div_mod::lemma_fundamental_div_mod_converse(v2 as int, 0x800_0000, 0, v2 as int);
            vstd::arithmetic::div_mod::lemma_fundamental_div_mod_converse(
                x - v2 + 0x800_0000,
                0x800_0000,
                0,
                x - v2 + 0x800_0000,
            );
        }
    } else {
        vstd::arithmetic::div_mod::lemma_fundamental_div_mod_converse((re - rs) as int, 4096, qe - qs, 0);
    }
}

/// Pages with the same slot map alike.
pub proof fn lemma_same_slot_mapped(m: PhysMemory, root: u64, v: u64, w: u64)
    requires
        same_slot(v, w),
    ensures
        mapped(m, root, v) == mapped(m, root, w),
{
}

/// A page among the first `n` slots from `vs` shares its slot with one of
/// those slots.
#[verifier::spinoff_prover]
pub proof fn lemma_in_slots_witness(v: u64, vs: u64, n: int)
    requires
        in_slots(v, vs, n),
        vs < 0x10_0000_0000_0000,
    ensures
        ({
            let k = (idx(v, 0) - idx(vs, 0) + 512) % 512;
            &&& 0 <= k < n
            &&& same_slot(v, l3_slot(vs, k))
        }),
{
    let k = (idx(v, 0) - idx(vs, 0) + 512) % 512;
    lemma_idx_bounds(v);
    lemma_idx_bounds(vs);
    lemma_idx_arith(vs);
    lemma_slot(vs, k);
    lemma_offset(idx(v, 0), idx(vs, 0), k);
}

/// The first `n` slots from `vs` map nothing.
pub open spec fn slots_free(m: PhysMemory, root: u64, vs: u64, n: int) -> bool {
    forall|k: int| 0 <= k < n ==> mapped(m, root, #[trigger] l3_slot(vs, k)).is_none()
}

/// A page whose slot maps something lies outside a range of slots that
/// map nothing.
pub proof fn lemma_outside_free_slots(m: PhysMemory, root: u64, v: u64, vs: u64, n: int)
    requires
        slots_free(m, root, vs, n),
        mapped(m, root, v) is Some,
        vs < 0x10_0000_0000_0000,
    ensures
        !in_slots(v, vs, n),
{
    if in_slots(v, vs, n) {
        lemma_in_slots_witness(v, vs, n);
        let k = (idx(v, 0) - idx(vs, 0) + 512) % 512;
        lemma_same_slot_mapped(m, root, v, l3_slot(vs, k));
    }
}

/// An area whose pages have frames of their own.
pub struct FrameBasedArea {
    pub area: MemoryStaticArea,
    pub mem_frames: FrameMap,
}

/// What `set_l3_frames` does for the `n` pages from page `vs`: each page's
/// slot in the leaf table of `vs` maps a frame that was free and is
/// recorded under the page's key; every other page maps as before, and
/// the other keys keep their frames.
pub open spec fn l3_frames_post(
    fa: FrameBasedArea,
    fb: FrameBasedArea,
    ta: DynamicPageTable,
    tb: DynamicPageTable,
    aa: StackFrameAllocator,
    ab: StackFrameAllocator,
    ma: PhysMemory,
    mb: PhysMemory,
    vs: u64,
    n: int,
) -> bool {
    let fm_a = frame_map_view(fa.mem_frames);
    let fm_b = frame_map_view(fb.mem_frames);
    &&& alloc_ok(ab, mb)
    &&& table_ok(mb, tb.root_ppn.0, ab.free_frames())
    &&& tb.root_ppn.0 != 0
    &&& ta.root_ppn.0 != 0 ==> tb.root_ppn == ta.root_ppn
    &&& frames_mapped(mb, tb.root_ppn.0, fm_b, vs, n)
    &&& forall|k: int|
        0 <= k < n ==> aa.free_frames().contains(#[trigger] fm_b[frame_key(vs, k)]) && !ab.free_frames().contains(
            fm_b[frame_key(vs, k)],
        )
    &&& forall|v: u64| !in_slots(v, vs, n) ==> #[trigger] mapped(mb, tb.root_ppn.0, v) == mapped(ma, ta.root_ppn.0, v)
    &&& forall|x: u64| #[trigger] fm_b.contains_key(x) == (fm_a.contains_key(x) || key_in(x, vs, n))
    &&& forall|x: u64| #[trigger] fm_a.contains_key(x) ==> fm_b[x] == fm_a[x]
    &&& ab.free_frames().subset_of(aa.free_frames())
    &&& ab.free_count() + frames_needed(ma, ta.root_ppn.0, vs) + n == aa.free_count()
    &&& mb.base_ppn == ma.base_ppn
    &&& mb.words@.len() == ma.words@.len()
    &&& fb.area == fa.area
    &&& ta.page_table@.to_set().subset_of(tb.page_table@.to_set())
    &&& tb.page_table@.to_set().subset_of(ta.page_table@.to_set() + aa.free_frames())
}

impl FrameBasedArea {
    /// The area `in_area`, with no frames yet.
    pub fn new(in_area: MemoryStaticArea) -> (r: Self)
        ensures
            r.area == in_area,
            frame_map_view(r.mem_frames).dom() == Set::<u64>::empty(),
    {
        Self { area: in_area, mem_frames: FrameMap::new() }
    }

    /// Gives the `i`-th page from page `vs` a fresh frame, entered with
    /// `flags` in leaf table `l3` (the leaf table of `vs`) at the page's
    /// leaf index, and recorded under the page's key.
    #[verifier::rlimit(100)]
    #[verifier::spinoff_prover]
    fn set_one_frame(
        &mut self,
        table: &DynamicPageTable,
        alloc: &mut StackFrameAllocator,
        m: &mut PhysMemory,
        vs: u64,
        i: u64,
        l3: PhysPageNum,
        flags: RisvPTEFlags,
    )
        requires
            i < 512,
            vs < 0x10_0000_0000_0000,
            table.root_ppn.0 != 0,
            alloc_ok(*old(alloc), *old(m)),
            crate::mm::page_table::pt_wf(*old(m), table.root_ppn.0, old(alloc).free_frames()),
            crate::mm::page_table::l3_table(*old(m), table.root_ppn.0, vs) == Some(l3.0),
            old(alloc).free_count() >= 1,
            mapped(*old(m), table.root_ppn.0, l3_slot(vs, i as int)).is_none(),
            !frame_map_view(old(self).mem_frames).contains_key(frame_key(vs, i as int)),
        ensures
            ({
                let p = frame_map_view(final(self).mem_frames)[frame_key(vs, i as int)];
                &&& frame_map_view(final(self).mem_frames) == frame_map_view(old(self).mem_frames).insert(
                    frame_key(vs, i as int),
                    p,
                )
                &&& old(alloc).free_frames().contains(p)
                &&& final(alloc).free_frames() == old(alloc).free_frames().remove(p)
                &&& mapped(*final(m), table.root_ppn.0, l3_slot(vs, i as int)) == Some(p)
            }),
            final(alloc).free_count() + 1 == old(alloc).free_count(),
            alloc_ok(*final(alloc), *final(m)),
            crate::mm::page_table::pt_wf(*final(m), table.root_ppn.0, final(alloc).free_frames()),
            crate::mm::page_table::l3_table(*final(m), table.root_ppn.0, vs) == Some(l3.0),
            forall|v: u64|
                !same_slot(v, l3_slot(vs, i as int)) ==> #[trigger] mapped(*final(m), table.root_ppn.0, v) == mapped(
                    *old(m),
                    table.root_ppn.0,
                    v,
                ),
            final(m).base_ppn == old(m).base_ppn,
            final(m).words@.len() == old(m).words@.len(),
            final(self).area == old(self).area,
    {
        let root = table.root_ppn.0;
        let ghost a_before = *alloc;
        let ghost m_before = *m;
        let r = alloc.alloc_frame();
        proof {
            lemma_alloc_takes_free_frame(a_before, *alloc, r);
        }
        let ppn = r.unwrap();
        proof {
            crate::mm::page_table::lemma_free_below_last(a_before, ppn.0);
            crate::mm::page_table::lemma_tables_agree(m_before, m_before, root, a_before.free_frames(), alloc.free_frames());
        }
        let cur = VirtPageNum::from(vs + i);
        proof {
            crate::mm::address::lemma_masks((vs + i) as u64);
            lemma_slot_free(*m, root, alloc.free_frames(), vs, i as int, l3.0);
        }
        table.set_l3_pages(m, cur, ppn, flags, l3);
        proof {
            lemma_slot_write(m_before, *m, root, alloc.free_frames(), vs, i as int, l3.0, ppn.0, flags.bits);
            assert forall|q: u64| #[trigger] alloc.free_frames().contains(q) implies m.has_frame(q) && q != 0 by {
                assert(a_before.free_frames().contains(q));
            }
        }
        let _ = self.mem_frames.insert(cur.0, ppn.0);
    }

    /// Gives each page from `v_start` up to `v_end` a frame, entered in the
    /// leaf table of `v_start` at the page's leaf index, with `pte_flags`.
    #[verifier::rlimit(100)]
    #[verifier::spinoff_prover]
    fn set_l3_frames(
        &mut self,
        table: &mut DynamicPageTable,
        alloc: &mut StackFrameAllocator,
        m: &mut PhysMemory,
        v_start: VirtualAddr,
        v_end: VirtualAddr,
        pte_flags: RisvPTEFlags,
    )
        requires
            alloc_ok(*old(alloc), *old(m)),
            table_ok(*old(m), old(table).root_ppn.0, old(alloc).free_frames()),
            vpn_of(v_start) < vpn_of(v_end),
            vpn_of(v_end) - vpn_of(v_start) <= 512,
            old(alloc).free_count() >= frames_needed(*old(m), old(table).root_ppn.0, vpn_of(v_start)) + (
            vpn_of(v_end) - vpn_of(v_start)),
            forall|k: int|
                0 <= k < vpn_of(v_end) - vpn_of(v_start) ==> mapped(
                    *old(m),
                    old(table).root_ppn.0,
                    #[trigger] l3_slot(vpn_of(v_start), k),
                ).is_none(),
            forall|k: int|
                0 <= k < vpn_of(v_end) - vpn_of(v_start) ==> !frame_map_view(old(self).mem_frames).contains_key(
                    #[trigger] frame_key(vpn_of(v_start), k),
                ),
        ensures
            l3_frames_post(
                *old(self),
                *final(self),
                *old(table),
                *final(table),
                *old(alloc),
                *final(alloc),
                *old(m),
                *final(m),
                vpn_of(v_start),
                vpn_of(v_end) - vpn_of(v_start),
            ),
    {
        proof {
            crate::mm::address::lemma_page_unshift(v_start.0);
            crate::mm::address::lemma_page_unshift(v_end.0);
        }
        let vpn_start = VirtPageNum::from(v_start);
        let vpn_end = VirtPageNum::from(v_end);
        let l3_table = table.check_l2_pointers(alloc, m, vpn_start);
        let index: u64 = vpn_end.0 - vpn_start.0;
        let root = table.root_ppn.0;
        let ghost vs = vpn_start.0;
        let ghost n = index as int;
        let ghost m1 = *m;
        let ghost a1 = *alloc;
        let ghost f0 = frame_map_view(self.mem_frames);
        let ghost t1 = *table;
        proof {
            assert forall|k: int| 0 <= k < n implies mapped(m1, root, #[trigger] l3_slot(vs, k)).is_none() by {
                assert(mapped(m1, root, l3_slot(vs, k)) == mapped(*old(m), old(table).root_ppn.0, l3_slot(vs, k)));
            }
        }
        let mut i: u64 = 0;
        while i < index
            invariant
                0 <= i <= index,
                index == n,
                n <= 512,
                vs == vpn_start.0,
                vs < 0x10_0000_0000_0000,
                table.root_ppn.0 == root,
                root != 0,
                *table == t1,
                alloc_ok(*alloc, *m),
                crate::mm::page_table::pt_wf(*m, root, alloc.free_frames()),
                crate::mm::page_table::l3_table(*m, root, vs) == Some(l3_table.0),
                alloc.free_count() >= n - i,
                alloc.free_frames().subset_of(a1.free_frames()),
                alloc.free_count() + i == a1.free_count(),
                m.base_ppn == m1.base_ppn,
                m.words@.len() == m1.words@.len(),
                self.area == old(self).area,
                frames_mapped(*m, root, frame_map_view(self.mem_frames), vs, i as int),
                forall|k: int|
                    0 <= k < i ==> a1.free_frames().contains(
                        #[trigger] frame_map_view(self.mem_frames)[frame_key(vs, k)],
                    ) && !alloc.free_frames().contains(frame_map_view(self.mem_frames)[frame_key(vs, k)]),
                forall|k: int| i <= k < n ==> mapped(*m, root, #[trigger] l3_slot(vs, k)).is_none(),
                forall|v: u64| !in_slots(v, vs, i as int) ==> #[trigger] mapped(*m, root, v) == mapped(m1, root, v),
                forall|x: u64|
                    #[trigger] frame_map_view(self.mem_frames).contains_key(x) == (f0.contains_key(x) || key_in(
                        x,
                        vs,
                        i as int,
                    )),
                forall|x: u64| #[trigger] f0.contains_key(x) ==> frame_map_view(self.mem_frames)[x] == f0[x],
                forall|k: int| 0 <= k < n ==> !f0.contains_key(#[trigger] frame_key(vs, k)),
            decreases index - i,
        {
            let ghost a_before = *alloc;
            let ghost m_before = *m;
            let ghost fm_before = frame_map_view(self.mem_frames);
            proof {
                lemma_slot(vs, i as int);
                lemma_range_step(vs, i as int);
            }
            self.set_one_frame(table, alloc, m, vpn_start.0, i, l3_table, pte_flags);
            proof {
                let fm = frame_map_view(self.mem_frames);
                let s_i = l3_slot(vs, i as int);
                assert forall|k: int| 0 <= k < i + 1 implies #[trigger] fm.contains_key(frame_key(vs, k)) && mapped(
                    *m,
                    root,
                    l3_slot(vs, k),
                ) == Some(fm[frame_key(vs, k)]) by {
                    if k < i {
                        assert(fm_before.contains_key(frame_key(vs, k)));
                        assert(frame_key(vs, k) != frame_key(vs, i as int));
                        assert(!same_slot(l3_slot(vs, k), s_i));
                    }
                }
                assert forall|k: int| 0 <= k < i + 1 implies a1.free_frames().contains(
                    #[trigger] fm[frame_key(vs, k)],
                ) && !alloc.free_frames().contains(fm[frame_key(vs, k)]) by {
                    if k < i {
                        assert(frame_key(vs, k) != frame_key(vs, i as int));
                    }
                }
                assert forall|k: int| i + 1 <= k < n implies mapped(*m, root, #[trigger] l3_slot(vs, k)).is_none() by {
                    assert(!same_slot(l3_slot(vs, k), s_i));
                }
                assert forall|v: u64| !in_slots(v, vs, (i + 1) as int) implies #[trigger] mapped(*m, root, v) == mapped(
                    m1,
                    root,
                    v,
                ) by {
                    assert(!same_slot(v, s_i));
                }
                assert forall|x: u64| #[trigger] fm.contains_key(x) == (f0.contains_key(x) || key_in(x, vs, (i + 1) as int)) by {}
                assert forall|x: u64| #[trigger] f0.contains_key(x) implies fm[x] == f0[x] by {
                    assert(x != frame_key(vs, i as int));
                }
            }
            i = i + 1;
        }
    }

    /// Clears the slots of the `n` pages from page `vs` in the leaf table
    /// of `vs` (as `set_l3_frames` filled them), forgets their frames and
    /// hands each back. False where it cannot go on: the leaf table
    /// is missing, or a frame cannot be handed back (it is not part of
    /// memory, or not out).
    #[verifier::rlimit(100)]
    #[verifier::spinoff_prover]
    fn free_l3_frames(
        &mut self,
        table: &DynamicPageTable,
        alloc: &mut StackFrameAllocator,
        m: &mut PhysMemory,
        tables: &Vec<u64>,
        vs: u64,
        n: u64,
    ) -> (r: bool)
        requires
            table.root_ppn.0 != 0,
            0 < n <= 512,
            vs < 0x800_0000,
            alloc_ok(*old(alloc), *old(m)),
            crate::mm::page_table::pt_wf(*old(m), table.root_ppn.0, old(alloc).free_frames()),
            lists_tables(*old(m), table.root_ppn.0, tables@),
        ensures
            frees_post(*old(self), *final(self), table.root_ppn.0, *old(alloc), *final(alloc), *old(m), *final(m), vs, n as int, r),
    {
        let root = table.root_ppn.0;
        let ghost free0 = alloc.free_frames();
        let ghost a0 = *alloc;
        let ghost m0 = *m;
        let ghost f0 = frame_map_view(self.mem_frames);
        let vpn_start = VirtPageNum(vs);
        proof {
            crate::mm::page_table::lemma_wf_path(*m, root, free0, vs);
        }
        if table.frames_needed_exec(m, Ghost(free0), vpn_start) != 0 {
            proof {
                assert(range_frames(f0, vs, 0) =~= Set::<u64>::empty());
                assert(alloc.free_frames() =~= free0 + range_frames(f0, vs, 0));
            }
            return false;
        }
        let l3 = table.get_n_level_table_ppn(m, vpn_start, 3);
        proof {
            assert(range_frames(f0, vs, 0) =~= Set::<u64>::empty());
            assert(alloc.free_frames() =~= free0 + range_frames(f0, vs, 0));
        }
        let mut i: u64 = 0;
        let mut ok: bool = true;
        while i < n && ok
            invariant
                i <= n,
                n <= 512,
                vs < 0x800_0000,
                root == table.root_ppn.0,
                root != 0,
                alloc_ok(*alloc, *m),
                crate::mm::page_table::pt_wf(*m, root, alloc.free_frames()),
                crate::mm::page_table::l3_table(*m, root, vs) == Some(l3.0),
                m.has_frame(l3.0),
                lists_tables(m0, root, tables@),
                forall|f: u64| #[trigger] crate::mm::page_table::is_table(*m, root, f) == crate::mm::page_table::is_table(m0, root, f),
                forall|v: u64| !in_slots(v, vs, i as int) ==> #[trigger] mapped(*m, root, v) == mapped(m0, root, v),
                forall|x: u64| #[trigger] frame_map_view(self.mem_frames).contains_key(x) ==> f0.contains_key(x) && frame_map_view(self.mem_frames)[x] == f0[x],
                forall|x: u64| #[trigger] f0.contains_key(x) && !key_in(x, vs, i as int) ==> frame_map_view(self.mem_frames).contains_key(x),
                free0.subset_of(alloc.free_frames()),
                ok ==> forall|k: int| 0 <= k < i ==> mapped(*m, root, #[trigger] l3_slot(vs, k)).is_none(),
                ok ==> forall|x: u64|
                    #[trigger] frame_map_view(self.mem_frames).contains_key(x) == (f0.contains_key(x) && !key_in(x, vs, i as int)),
                ok ==> alloc.free_frames() == free0 + range_frames(f0, vs, i as int),
                alloc.cur_ppn == a0.cur_ppn,
                alloc.last_ppn == a0.last_ppn,
                m.base_ppn == m0.base_ppn,
                m.words@.len() == m0.words@.len(),
                self.area == old(self).area,
            decreases n - i,
        {
            let ghost m_before = *m;
            let ghost a_before = *alloc;
            let ghost fm_before = frame_map_view(self.mem_frames);
            proof {
                lemma_slot(vs, i as int);
                lemma_range_step(vs, i as int);
                lemma_key_idx(vs, i as int);
                crate::mm::address::lemma_masks((vs + i) as u64);
            }
            let cur = VirtPageNum::from(vs + i);
            assert(cur.0 == frame_key(vs, i as int));
            table.clear_l3_entrys(m, cur, l3);
            proof {
                lemma_slot_clear(m_before, *m, root, alloc.free_frames(), vs, i as int, l3.0);
            }
            let ghost key = frame_key(vs, i as int);
            let removed = self.mem_frames.remove(cur.0);
            match removed {
                Some(f) => {
                    if m.contains_frame(f) && f != 0 && alloc.holds_out(f) && !frame_listed(tables, f) {
                        proof {
                            assert(fm_before.contains_key(key));
                            assert(!crate::mm::page_table::is_table(m0, root, f));
                            assert(!crate::mm::page_table::is_table(*m, root, f));
                            crate::mm::page_table::lemma_free_more(*m, root, alloc.free_frames(), f);
                        }
                        alloc.dealloc(PhysPageNum(f));
                        proof {
                            assert forall|q: u64| #[trigger] alloc.unused_ppns@.contains(q) == (a_before.unused_ppns@.contains(q)
                                || q == f) by {
                                let s0 = a_before.unused_ppns@;
                                let s1 = alloc.unused_ppns@;
                                if s1.contains(q) {
                                    let j = choose|j: int| 0 <= j < s1.len() && s1[j] == q;
                                    if j < s0.len() {
                                        assert(s0[j] == q);
                                    }
                                }
                                if s0.contains(q) {
                                    let j = choose|j: int| 0 <= j < s0.len() && s0[j] == q;
                                    assert(s1[j] == q);
                                }
                                if q == f {
                                    assert(s1[s0.len() as int] == f);
                                }
                            }
                            assert(alloc.free_frames() =~= a_before.free_frames().insert(f));
                            assert(alloc.unused_ppns@.no_duplicates());
                            assert forall|q: u64| #[trigger] alloc.free_frames().contains(q) implies m.has_frame(q) && q != 0 by {
                                if q != f {
                                    assert(a_before.free_frames().contains(q));
                                }
                            }
                            if ok {
                                assert(f0.contains_key(key) && f0[key] == f);
                                assert forall|q: u64| #[trigger] range_frames(f0, vs, i + 1).contains(q) == (range_frames(
                                    f0,
                                    vs,
                                    i as int,
                                ).contains(q) || q == f) by {
                                    if range_frames(f0, vs, i + 1).contains(q) {
                                        let k = choose|k: int|
                                            0 <= k < i + 1 && f0.contains_key(frame_key(vs, k)) && #[trigger] f0[frame_key(vs, k)] == q;
                                        if k < i {
                                            assert(range_frames(f0, vs, i as int).contains(q));
                                        }
                                    }
                                    if range_frames(f0, vs, i as int).contains(q) {
                                        let k = choose|k: int|
                                            0 <= k < i && f0.contains_key(frame_key(vs, k)) && #[trigger] f0[frame_key(vs, k)] == q;
                                        assert(range_frames(f0, vs, i + 1).contains(q));
                                    }
                                    if q == f {
                                        assert(f0[frame_key(vs, i as int)] == q);
                                        assert(range_frames(f0, vs, i + 1).contains(q));
                                    }
                                }
                                assert(alloc.free_frames() =~= free0 + range_frames(f0, vs, i + 1));
                            }
                        }
                    } else {
                        ok = false;
                    }
                },
                None => {
                    proof {
                        if ok {
                            assert(!f0.contains_key(key));
                            assert forall|q: u64| #[trigger] range_frames(f0, vs, i + 1).contains(q) == range_frames(
                                f0,
                                vs,
                                i as int,
                            ).contains(q) by {
                                if range_frames(f0, vs, i + 1).contains(q) {
                                    let k = choose|k: int|
                                        0 <= k < i + 1 && f0.contains_key(frame_key(vs, k)) && #[trigger] f0[frame_key(vs, k)] == q;
                                    assert(k != i);
                                    assert(range_frames(f0, vs, i as int).contains(q));
                                }
                                if range_frames(f0, vs, i as int).contains(q) {
                                    let k = choose|k: int|
                                        0 <= k < i && f0.contains_key(frame_key(vs, k)) && #[trigger] f0[frame_key(vs, k)] == q;
                                    assert(range_frames(f0, vs, i + 1).contains(q));
                                }
                            }
                            assert(alloc.free_frames() =~= free0 + range_frames(f0, vs, i + 1));
                        }
                    }
                },
            }
            proof {
                let fm = frame_map_view(self.mem_frames);
                assert(fm =~= fm_before.remove(key));
                assert forall|k: int| 0 <= k < i + 1 && ok implies mapped(*m, root, #[trigger] l3_slot(vs, k)).is_none() by {
                    if k < i {
                        assert(!same_slot(l3_slot(vs, k), l3_slot(vs, i as int)));
                    }
                }
                assert forall|v: u64| !in_slots(v, vs, (i + 1) as int) implies #[trigger] mapped(*m, root, v) == mapped(
                    m0,
                    root,
                    v,
                ) by {
                    assert(!same_slot(v, l3_slot(vs, i as int)));
                }
                assert forall|g: u64| #[trigger] crate::mm::page_table::is_table(*m, root, g)
                    == crate::mm::page_table::is_table(m0, root, g) by {
                    assert(crate::mm::page_table::is_table(*m, root, g) == crate::mm::page_table::is_table(
                        m_before,
                        root,
                        g,
                    ));
                }
                assert forall|x: u64| #[trigger] f0.contains_key(x) && !key_in(x, vs, (i + 1) as int) implies fm.contains_key(x) by {}
                if ok {
                    assert forall|x: u64| #[trigger] fm.contains_key(x) == (f0.contains_key(x) && !key_in(x, vs, (i + 1) as int)) by {}
                }
            }
            i = i + 1;
        }
        proof {
            assert forall|v: u64| !in_slots(v, vs, n as int) implies #[trigger] mapped(*m, root, v) == mapped(m0, root, v) by {
                if in_slots(v, vs, i as int) {
                    lemma_in_slots_grow(v, vs, i as int, n as int);
                }
            }
            assert forall|x: u64| #[trigger] f0.contains_key(x) && !key_in(x, vs, n as int) implies frame_map_view(
                self.mem_frames,
            ).contains_key(x) by {
                if key_in(x, vs, i as int) {
                    lemma_key_in_grow(x, vs, i as int, n as int);
                }
            }
        }
        ok
    }

    /// Gives frames to the 2 MiB blocks from `v_start` up to `v_end`, a
    /// leaf table of 512 pages for each whole 2^21 pages the range spans;
    /// a range of fewer pages (under 8 GiB) has none, and nothing changes.
    fn set_l2_frames(
        &mut self,
        table: &mut DynamicPageTable,
        alloc: &mut StackFrameAllocator,
        m: &mut PhysMemory,
        v_start: VirtualAddr,
        v_end: VirtualAddr,
        pte_flags: RisvPTEFlags,
    )
        requires
            vpn_of(v_start) < vpn_of(v_end),
            vpn_of(v_end) - vpn_of(v_start) < 0x20_0000,
        ensures
            *final(self) == *old(self),
            *final(table) == *old(table),
            *final(alloc) == *old(alloc),
            *final(m) == *old(m),
    {
        proof {
            crate::mm::address::lemma_page_unshift(v_start.0);
            crate::mm::address::lemma_page_unshift(v_end.0);
        }
        let vpn_start = VirtPageNum::from(v_start);
        let vpn_end = VirtPageNum::from(v_end);
        let d: u64 = vpn_end.0 - vpn_start.0;
        let index: u64 = d >> 21u64;
        assert(d < 0x20_0000 ==> d >> 21u64 == 0) by (bit_vector);
        let step: u64 = 512;
        let mut i: u64 = 0;
        while i < index
            invariant
                index == 0,
                i == 0,
                *self == *old(self),
                *table == *old(table),
                *alloc == *old(alloc),
                *m == *old(m),
            decreases index - i,
        {
            let s_vpn = VirtPageNum::from(vpn_start.0 + i * step);
            let e_vpn = VirtPageNum::from(vpn_start.0 + i * step + step);
            self.set_l3_frames(table, alloc, m, VirtualAddr::from(s_vpn), VirtualAddr::from(e_vpn), pte_flags);
            i = i + 1;
        }
    }

    /// Gives every page of the area a fresh frame with the area's
    /// permission, through `set_l3_frames` for the pages below and above
    /// the 2 MiB blocks it spans (or for all its pages when it spans none)
    /// and `set_l2_frames` for the blocks.
    #[verifier::rlimit(80)]
    #[verifier::spinoff_prover]
    pub fn map_area(&mut self, table: &mut DynamicPageTable, alloc: &mut StackFrameAllocator, m: &mut PhysMemory)
        requires
            alloc_ok(*old(alloc), *old(m)),
            table_ok(*old(m), old(table).root_ppn.0, old(alloc).free_frames()),
            area_mappable(old(self).area),
            area_free(*old(m), old(table).root_ppn.0, frame_map_view(old(self).mem_frames), old(self).area),
            old(alloc).free_count() >= area_ranges(old(self).area).1 + area_ranges(old(self).area).3 + 6,
        ensures
            final(self).area == old(self).area,
            area_mapped_post(
                old(self).area,
                frame_map_view(old(self).mem_frames),
                frame_map_view(final(self).mem_frames),
                *old(table),
                *final(table),
                *old(alloc),
                *final(alloc),
                *old(m),
                *final(m),
            ),
    {
        let ghost r = area_ranges(self.area);
        proof {
            lemma_area_ranges(self.area);
        }
        let addr_start = self.area.vaddr_start.round_down_in_4k();
        let addr_end = self.area.vaddr_end.round_up_in_4k();
        let addr_start_block = self.area.vaddr_start.round_up_in_2m();
        let addr_end_block = self.area.vaddr_end.round_down_in_2m();
        let pte_flags = RisvPTEFlags::from_bits(self.area.perm.bits).unwrap();
        let ghost f0 = *self;
        let ghost t0 = *table;
        let ghost a0 = *alloc;
        let ghost m0 = *m;
        if addr_start_block.0 < addr_end_block.0 {
            self.set_l3_frames(table, alloc, m, addr_start, addr_start_block, pte_flags);
            let ghost f1 = *self;
            let ghost t1 = *table;
            let ghost a1 = *alloc;
            let ghost m1 = *m;
            self.set_l2_frames(table, alloc, m, addr_start_block, addr_end_block, pte_flags);
            proof {
                assert forall|k: int| 0 <= k < r.3 implies mapped(m1, t1.root_ppn.0, #[trigger] l3_slot(r.2, k)).is_none() by {
                    assert(mapped(m1, t1.root_ppn.0, l3_slot(r.2, k)) == mapped(m0, t0.root_ppn.0, l3_slot(r.2, k)));
                }
                assert forall|k: int| 0 <= k < r.3 implies !frame_map_view(f1.mem_frames).contains_key(
                    #[trigger] frame_key(r.2, k),
                ) by {
                    assert(!frame_map_view(f0.mem_frames).contains_key(frame_key(r.2, k)));
                }
            }
            self.set_l3_frames(table, alloc, m, addr_end_block, addr_end, pte_flags);
            proof {
                let fm1 = frame_map_view(f1.mem_frames);
                let fm = frame_map_view(self.mem_frames);
                let root = table.root_ppn.0;
                assert forall|k: int| 0 <= k < r.1 implies #[trigger] fm.contains_key(frame_key(r.0, k)) && mapped(
                    *m,
                    root,
                    l3_slot(r.0, k),
                ) == Some(fm[frame_key(r.0, k)]) by {
                    assert(fm1.contains_key(frame_key(r.0, k)));
                    assert(mapped(*m, root, l3_slot(r.0, k)) == mapped(m1, root, l3_slot(r.0, k)));
                }
                assert forall|k: int| 0 <= k < r.1 implies a0.free_frames().contains(
                    #[trigger] fm[frame_key(r.0, k)],
                ) && !alloc.free_frames().contains(fm[frame_key(r.0, k)]) by {
                    assert(fm1.contains_key(frame_key(r.0, k)));
                }
                assert forall|v: u64| !in_slots(v, r.0, r.1) && !in_slots(v, r.2, r.3) implies #[trigger] mapped(
                    *m,
                    root,
                    v,
                ) == mapped(m0, t0.root_ppn.0, v) by {
                    assert(mapped(m1, root, v) == mapped(m0, t0.root_ppn.0, v));
                }
                assert forall|x: u64| #[trigger] frame_map_view(f0.mem_frames).contains_key(x) implies fm[x]
                    == frame_map_view(f0.mem_frames)[x] by {
                    assert(fm1.contains_key(x));
                }
            }
        } else {
            self.set_l3_frames(table, alloc, m, addr_start, addr_end, pte_flags);
        }
    }

    /// Takes the frames of the 2 MiB blocks from `v_start` up to `v_end`
    /// away, a leaf table for each whole 2^21 pages the range spans; a
    /// range of fewer pages (under 8 GiB) has none, and nothing changes.
    fn free_l2_frames(&mut self, v_start: VirtualAddr, v_end: VirtualAddr)
        requires
            vpn_of(v_start) < vpn_of(v_end),
            vpn_of(v_end) - vpn_of(v_start) < 0x20_0000,
        ensures
            *final(self) == *old(self),
    {
        proof {
            crate::mm::address::lemma_page_unshift(v_start.0);
            crate::mm::address::lemma_page_unshift(v_end.0);
        }
        let vpn_start = VirtPageNum::from(v_start);
        let vpn_end = VirtPageNum::from(v_end);
        let d: u64 = vpn_end.0 - vpn_start.0;
        let index: u64 = d >> 21u64;
        assert(d < 0x20_0000 ==> d >> 21u64 == 0) by (bit_vector);
        let mut i: u64 = 0;
        while i < index
            invariant
                index == 0,
                i == 0,
                *self == *old(self),
            decreases index - i,
        {
            i = i + 1;
        }
    }

    /// Takes the area's pages out of the table: the slots of each range of
    /// the area (as `map_area` filled them) map nothing, and their frames
    /// are forgotten and handed back. False where it cannot go on:
    /// a leaf table is missing, or a frame cannot be handed back.
    #[verifier::rlimit(100)]
    #[verifier::spinoff_prover]
    pub fn unmap_area(
        &mut self,
        table: &DynamicPageTable,
        alloc: &mut StackFrameAllocator,
        m: &mut PhysMemory,
        tables: &Vec<u64>,
    ) -> (r: bool)
        requires
            table.root_ppn.0 != 0,
            area_mappable(old(self).area),
            alloc_ok(*old(alloc), *old(m)),
            crate::mm::page_table::pt_wf(*old(m), table.root_ppn.0, old(alloc).free_frames()),
            lists_tables(*old(m), table.root_ppn.0, tables@),
        ensures
            area_unmap_post(*old(self), *final(self), table.root_ppn.0, *old(alloc), *final(alloc), *old(m), *final(m), r),
    {
        let ghost rg = area_ranges(self.area);
        proof {
            lemma_area_ranges(self.area);
        }
        let ghost f0 = frame_map_view(self.mem_frames);
        let ghost a0 = *alloc;
        let ghost m0 = *m;
        let root = table.root_ppn.0;
        let rr = area_ranges_exec(&self.area);
        if rr.4 {
            let ok1 = self.free_l3_frames(table, alloc, m, tables, rr.0, rr.1);
            if !ok1 {
                proof {
                    assert forall|v: u64| outside_area(v, self.area) implies #[trigger] mapped(*m, root, v) == mapped(m0, root, v) by {}
                }
                return false;
            }
            let ghost f1 = frame_map_view(self.mem_frames);
            let ghost a1 = *alloc;
            let ghost m1 = *m;
            let addr_start_block = self.area.vaddr_start.round_up_in_2m();
            let addr_end_block = self.area.vaddr_end.round_down_in_2m();
            proof {
                crate::mm::address::lemma_page_unshift(addr_start_block.0);
                crate::mm::address::lemma_page_unshift(addr_end_block.0);
                assert(vpn_of(addr_end_block) - vpn_of(addr_start_block) < 0x20_0000) by (nonlinear_arith)
                    requires
                        addr_end_block.0 - addr_start_block.0 < 0x2_0000_0000,
                        addr_start_block.0 < addr_end_block.0,
                        addr_start_block.0 % 0x20_0000 == 0,
                        addr_end_block.0 % 0x20_0000 == 0,
                ;
            }
            self.free_l2_frames(addr_start_block, addr_end_block);
            let ok2 = self.free_l3_frames(table, alloc, m, tables, rr.2, rr.3);
            proof {
                assert forall|v: u64| outside_area(v, self.area) implies #[trigger] mapped(*m, root, v) == mapped(m0, root, v) by {
                    assert(mapped(*m, root, v) == mapped(m1, root, v));
                }
                assert forall|x: u64| #[trigger] frame_map_view(self.mem_frames).contains_key(x) implies f0.contains_key(x)
                    && frame_map_view(self.mem_frames)[x] == f0[x] by {
                    assert(f1.contains_key(x));
                }
                if ok2 {
                    assert forall|k: int| 0 <= k < rg.1 implies mapped(*m, root, #[trigger] l3_slot(rg.0, k)).is_none() by {
                        assert(mapped(m1, root, l3_slot(rg.0, k)).is_none());
                    }
                    assert forall|q: u64| #[trigger] range_frames(f1, rg.2, rg.3).contains(q) == range_frames(f0, rg.2, rg.3).contains(q) by {
                        if range_frames(f1, rg.2, rg.3).contains(q) {
                            let k = choose|k: int| 0 <= k < rg.3 && f1.contains_key(frame_key(rg.2, k)) && #[trigger] f1[frame_key(rg.2, k)] == q;
                            assert(range_frames(f0, rg.2, rg.3).contains(q));
                        }
                        if range_frames(f0, rg.2, rg.3).contains(q) {
                            let k = choose|k: int| 0 <= k < rg.3 && f0.contains_key(frame_key(rg.2, k)) && #[trigger] f0[frame_key(rg.2, k)] == q;
                            assert(!key_in(frame_key(rg.2, k), rg.0, rg.1));
                            assert(f1.contains_key(frame_key(rg.2, k)));
                            assert(range_frames(f1, rg.2, rg.3).contains(q));
                        }
                    }
                    assert(range_frames(f1, rg.2, rg.3) =~= range_frames(f0, rg.2, rg.3));
                    assert(alloc.free_frames() =~= a0.free_frames() + range_frames(f0, rg.0, rg.1) + range_frames(f0, rg.2, rg.3));
                }
            }
            ok2
        } else {
            let ok = self.free_l3_frames(table, alloc, m, tables, rr.0, rr.1);
            proof {
                assert forall|v: u64| outside_area(v, self.area) implies #[trigger] mapped(*m, root, v) == mapped(m0, root, v) by {}
                if ok {
                    assert(range_frames(f0, rg.2, rg.3) =~= Set::<u64>::empty());
                    assert(alloc.free_frames() =~= a0.free_frames() + range_frames(f0, rg.0, rg.1) + range_frames(f0, rg.2, rg.3));
                }
            }
            ok
        }
    }
}

/// The decimal digits of `n`.
pub open spec fn decimal(n: nat) -> Seq<char>
    decreases n,
{
    if n < 10 {
        seq![digit_char(n)]
    } else {
        decimal(n / 10).push(digit_char(n % 10))
    }
}

/// The character of digit `d`.
pub open spec fn digit_char(d: nat) -> char {
    (48 + d) as char
}

/// A name made of decimal digits starts with a digit.
pub proof fn lemma_decimal_first(n: nat)
    ensures
        decimal(n).len() >= 1,
        48 <= decimal(n)[0] as int <= 57,
    decreases n,
{
    if n >= 10 {
        lemma_decimal_first(n / 10);
    }
}

/// The decimal digit `d` as a one-character string.
fn digit_name(d: usize) -> (r: String)
    requires
        d < 10,
    ensures
        r@ == seq![digit_char(d as nat)],
{
    match d {
        0 => {
            proof {
                reveal_strlit("0");
            }
            String::from_str("0")
        },
        1 => {
            proof {
                reveal_strlit("1");
            }
            String::from_str("1")
        },
        2 => {
            proof {
                reveal_strlit("2");
            }
            String::from_str("2")
        },
        3 => {
            proof {
                reveal_strlit("3");
            }
            String::from_str("3")
        },
        4 => {
            proof {
                reveal_strlit("4");
            }
            String::from_str("4")
        },
        5 => {
            proof {
                reveal_strlit("5");
            }
            String::from_str("5")
        },
        6 => {
            proof {
                reveal_strlit("6");
            }
            String::from_str("6")
        },
        7 => {
            proof {
                reveal_strlit("7");
            }
            String::from_str("7")
        },
        8 => {
            proof {
                reveal_strlit("8");
            }
            String::from_str("8")
        },
        _ => {
            proof {
                reveal_strlit("9");
            }
            String::from_str("9")
        },
    }
}

/// The decimal digits of `i`, as `to_string` writes them.
pub(crate) fn decimal_name(i: usize) -> (r: String)
    ensures
        r@ == decimal(i as nat),
    decreases i,
{
    if i < 10 {
        digit_name(i)
    } else {
        let high = decimal_name(i / 10);
        let low = digit_name(i % 10);
        let r = high.concat(low.as_str());
        proof {
            assert(r@ =~= decimal((i / 10) as nat).push(digit_char((i % 10) as nat)));
        }
        r
    }
}

/// The permission bits of the area that segment `seg` gets: user mode,
/// and read, write and run as its flags say.
pub open spec fn seg_perm(seg: ElfSegment) -> u8 {
    let b1 = if seg.readable {
        MAP_PERM_U | MAP_PERM_R
    } else {
        MAP_PERM_U
    };
    let b2 = if seg.writable {
        b1 | MAP_PERM_W
    } else {
        b1
    };
    if seg.executable {
        b2 | MAP_PERM_X
    } else {
        b2
    }
}

/// Which permission bits the choices of `seg_perm` make, for any flags.
proof fn lemma_perm_choices(r: bool, w: bool, x: bool)
    by (bit_vector)
    ensures
        ({
            let b1: u8 = if r { 16u8 | 2u8 } else { 16u8 };
            let b2: u8 = if w { b1 | 4u8 } else { b1 };
            let b: u8 = if x { b2 | 8u8 } else { b2 };
            &&& (b & 2u8 == 2u8) == r
            &&& (b & 4u8 == 4u8) == w
            &&& (b & 8u8 == 8u8) == x
            &&& b & 16u8 == 16u8
            &&& b & 0xE1u8 == 0u8
        }),
{
}

/// The area made for a loaded segment can be read, written and run from
/// user mode exactly as the segment's flags say: bit 2 (read) when it is
/// readable, bit 4 (write) when it is writable, bit 8 (run) when it is
/// executable, bit 16 (user) always, and no other bit.
pub proof fn lemma_loaded_segment_perm(s: UserMemorySets, m: PhysMemory, seg: ElfSegment, j: nat)
    requires
        seg_loaded(s, m, seg, j),
    ensures
        ({
            let b = areas(s)[decimal(j)].area.perm.bits;
            &&& (b & 2u8 == 2u8) == seg.readable
            &&& (b & 4u8 == 4u8) == seg.writable
            &&& (b & 8u8 == 8u8) == seg.executable
            &&& b & 16u8 == 16u8
            &&& b & 0xE1u8 == 0u8
        }),
{
    lemma_perm_choices(seg.readable, seg.writable, seg.executable);
}

/// Each loadable segment of a loaded image has an area whose permission
/// bits follow the segment's flags, as `lemma_loaded_segment_perm` says.
pub proof fn lemma_image_perms(s0: UserMemorySets, s: UserMemorySets, m: PhysMemory, segs: Seq<ElfSegment>, strap_addr: u64, plan: Seq<CopyChunk>, j: int)
    requires
        image_loaded(s0, s, m, segs, strap_addr, plan),
        0 <= j < segs.len(),
        segs[j].kind == SegmentKind::Load,
    ensures
        ({
            let b = areas(s)[decimal(j as nat)].area.perm.bits;
            &&& (b & 2u8 == 2u8) == segs[j].readable
            &&& (b & 4u8 == 4u8) == segs[j].writable
            &&& (b & 8u8 == 8u8) == segs[j].executable
            &&& b & 16u8 == 16u8
            &&& b & 0xE1u8 == 0u8
        }),
{
    assert(seg_loaded(s, m, segs[j], j as nat));
    lemma_loaded_segment_perm(s, m, segs[j], j as nat);
}

/// The area that segment `seg` gets: its addresses as Sv39 addresses.
pub open spec fn seg_area(seg: ElfSegment) -> MemoryStaticArea {
    MemoryStaticArea {
        vaddr_start: VirtualAddr(seg.vaddr & 0x0000_007F_FFFF_FFFF),
        vaddr_end: VirtualAddr(((seg.vaddr + seg.mem_size) as u64) & 0x0000_007F_FFFF_FFFF),
        perm: MapPermission { bits: seg_perm(seg) },
    }
}

/// One page of a segment's file data to copy: the 4096 bytes at offset
/// `src_offset` of the file go to frame `dst_ppn`.
#[derive(Copy, Clone, PartialEq, Eq, Structural)]
pub struct CopyChunk {
    pub dst_ppn: u64,
    pub src_offset: u64,
}

/// The pages that the file data of segment `seg` cover, as (first page,
/// count).
pub open spec fn file_pages(seg: ElfSegment) -> (u64, int) {
    let vs = seg_area(seg).vaddr_start.0 as nat;
    ((vs / 4096) as u64, align_up((vs + seg.file_size) as nat, size_4k()) / 4096 - vs / 4096)
}

/// The copies that load the file data of segment `seg` into the frames
/// `fm` of its area, page by page.
pub open spec fn seg_plan(seg: ElfSegment, fm: Map<u64, u64>) -> Seq<CopyChunk> {
    let f = file_pages(seg);
    Seq::new(
        f.1 as nat,
        |p: int| CopyChunk { dst_ppn: fm[(f.0 + p) as u64], src_offset: (seg.offset + p * 4096) as u64 },
    )
}

/// The copies for the loadable segments among the first `n` of `segs`,
/// segment `j`'s area being the one named `decimal(j)` in `a`.
pub open spec fn copy_plan(segs: Seq<ElfSegment>, a: Map<Seq<char>, FrameBasedArea>, n: nat) -> Seq<CopyChunk>
    decreases n,
{
    if n == 0 {
        Seq::empty()
    } else {
        copy_plan(segs, a, (n - 1) as nat) + if segs[n - 1].kind == SegmentKind::Load {
            seg_plan(segs[n - 1], frame_map_view(a[decimal((n - 1) as nat)].mem_frames))
        } else {
            Seq::empty()
        }
    }
}

/// The copy plan reads only the areas of loadable segments.
pub proof fn lemma_copy_plan_same(segs: Seq<ElfSegment>, a: Map<Seq<char>, FrameBasedArea>, b: Map<Seq<char>, FrameBasedArea>, n: nat)
    requires
        n <= segs.len(),
        forall|j: int|
            0 <= j < n && segs[j].kind == SegmentKind::Load ==> #[trigger] b[decimal(j as nat)] == a[decimal(j as nat)],
    ensures
        copy_plan(segs, b, n) == copy_plan(segs, a, n),
    decreases n,
{
    if n > 0 {
        lemma_copy_plan_same(segs, a, b, (n - 1) as nat);
        if segs[n - 1].kind == SegmentKind::Load {
            assert(b[decimal((n - 1) as nat)] == a[decimal((n - 1) as nat)]);
        }
    }
}

/// Segment `seg`, number `j`, is loaded in address space `s`: its area is
/// there under `decimal(j)`, and its pages map the area's frames.
pub open spec fn seg_loaded(s: UserMemorySets, m: PhysMemory, seg: ElfSegment, j: nat) -> bool {
    let a = areas(s)[decimal(j)];
    let r = area_ranges(seg_area(seg));
    &&& areas(s).contains_key(decimal(j))
    &&& a.area == seg_area(seg)
    &&& frames_mapped(m, s.table.root_ppn.0, frame_map_view(a.mem_frames), r.0, r.1)
    &&& frames_mapped(m, s.table.root_ppn.0, frame_map_view(a.mem_frames), r.2, r.3)
}

/// The ranges of area `a` as plain numbers.
fn area_ranges_exec(a: &MemoryStaticArea) -> (r: (u64, u64, u64, u64, bool, u64))
    requires
        a.vaddr_start.0 < 0x80_0000_0000,
        a.vaddr_end.0 < 0x80_0000_0000,
    ensures
        r.0 == area_ranges(*a).0,
        area_ranges(*a).1 >= 0 ==> r.1 == area_ranges(*a).1,
        area_ranges(*a).1 < 0 ==> r.1 == 0,
        r.2 == area_ranges(*a).2,
        r.3 == area_ranges(*a).3,
        r.4 == (align_up(a.vaddr_start.0 as nat, size_2m()) < align_down(a.vaddr_end.0 as nat, size_2m())),
        r.4 ==> r.5 == align_down(a.vaddr_end.0 as nat, size_2m()) - align_up(a.vaddr_start.0 as nat, size_2m()),
{
    let rs = crate::mm::address::round_down_in_4k(a.vaddr_start.0);
    let re = crate::mm::address::round_up_in_4k(a.vaddr_end.0);
    let sb = crate::mm::address::round_up_in_2m(a.vaddr_start.0);
    let eb = crate::mm::address::round_down_in_2m(a.vaddr_end.0);
    if sb < eb {
        (rs / 4096, (sb - rs) / 4096, eb / 4096, (re - eb) / 4096, true, eb - sb)
    } else {
        if re >= rs {
            (rs / 4096, (re - rs) / 4096, 0, 0, false, 0)
        } else {
            (rs / 4096, 0, 0, 0, false, 0)
        }
    }
}

/// Whether area `a` can be mapped, as `area_mappable` says.
fn mappable_exec(a: &MemoryStaticArea) -> (r: bool)
    ensures
        r == area_mappable(*a),
{
    if !(a.vaddr_start.0 < 0x80_0000_0000 && a.vaddr_end.0 < 0x80_0000_0000) {
        return false;
    }
    let g = area_ranges_exec(a);
    if !(1 <= g.1 && g.1 <= 512 && g.3 <= 512) {
        return false;
    }
    if g.4 && !(g.3 >= 1 && g.5 < 0x2_0000_0000) {
        return false;
    }
    true
}

/// The slot of the `k`-th page from `vs`, as a number.
fn slot_exec(vs: u64, k: u64) -> (r: u64)
    requires
        vs < 0x800_0000,
        k < 512,
    ensures
        r == l3_slot(vs, k as int),
{
    vs - vs % 512 + (vs % 512 + k) % 512
}

/// Segments loaded earlier stay loaded when a new area is added under a
/// new name and its pages, whose slots mapped nothing, get frames.
#[verifier::spinoff_prover]
#[verifier::rlimit(50)]
pub proof fn lemma_keep_loaded(
    s: UserMemorySets,
    s2: UserMemorySets,
    m: PhysMemory,
    m2: PhysMemory,
    segs: Seq<ElfSegment>,
    i: nat,
    g: (u64, int, u64, int),
)
    requires
        i <= segs.len(),
        forall|j: int|
            0 <= j < i && segs[j].kind == SegmentKind::Load ==> #[trigger] seg_loaded(s, m, segs[j], j as nat),
        forall|j: int| 0 <= j < i && segs[j].kind == SegmentKind::Load ==> area_mappable(seg_area(#[trigger] segs[j])),
        forall|n: Seq<char>|
            #[trigger] areas(s).contains_key(n) ==> areas(s2).contains_key(n) && areas(s2)[n] == areas(s)[n],
        g.0 < 0x800_0000,
        g.2 < 0x800_0000,
        slots_free(m, s.table.root_ppn.0, g.0, g.1),
        slots_free(m, s.table.root_ppn.0, g.2, g.3),
        s.table.root_ppn.0 != 0 ==> s2.table.root_ppn == s.table.root_ppn,
        forall|v: u64|
            !in_slots(v, g.0, g.1) && !in_slots(v, g.2, g.3) ==> #[trigger] mapped(m2, s2.table.root_ppn.0, v) == mapped(
                m,
                s.table.root_ppn.0,
                v,
            ),
    ensures
        forall|j: int|
            0 <= j < i && segs[j].kind == SegmentKind::Load ==> #[trigger] seg_loaded(s2, m2, segs[j], j as nat),
{
    assert forall|j: int| 0 <= j < i && segs[j].kind == SegmentKind::Load implies #[trigger] seg_loaded(
        s2,
        m2,
        segs[j],
        j as nat,
    ) by {
        assert(seg_loaded(s, m, segs[j], j as nat));
        let a = areas(s)[decimal(j as nat)];
        let r = area_ranges(seg_area(segs[j]));
        let fm = frame_map_view(a.mem_frames);
        let root = s.table.root_ppn.0;
        lemma_area_ranges(seg_area(segs[j]));
        assert(areas(s).contains_key(decimal(j as nat)));
        assert(frames_mapped(m, root, fm, r.0, r.1));
        assert(frames_mapped(m, root, fm, r.2, r.3));
        assert(fm.contains_key(frame_key(r.0, 0)));
        assert(mapped(m, root, l3_slot(r.0, 0)) is Some);
        assert(root != 0);
        assert forall|k: int| 0 <= k < r.1 implies #[trigger] fm.contains_key(frame_key(r.0, k)) && mapped(
            m2,
            s2.table.root_ppn.0,
            l3_slot(r.0, k),
        ) == Some(fm[frame_key(r.0, k)]) by {
            assert(fm.contains_key(frame_key(r.0, k)));
            lemma_outside_free_slots(m, root, l3_slot(r.0, k), g.0, g.1);
            lemma_outside_free_slots(m, root, l3_slot(r.0, k), g.2, g.3);
        }
        assert forall|k: int| 0 <= k < r.3 implies #[trigger] fm.contains_key(frame_key(r.2, k)) && mapped(
            m2,
            s2.table.root_ppn.0,
            l3_slot(r.2, k),
        ) == Some(fm[frame_key(r.2, k)]) by {
            assert(fm.contains_key(frame_key(r.2, k)));
            lemma_outside_free_slots(m, root, l3_slot(r.2, k), g.0, g.1);
            lemma_outside_free_slots(m, root, l3_slot(r.2, k), g.2, g.3);
        }
    }
}

/// What loading the segments `segs` of an image did to address space `s`
/// (from `s0`) and memory `m`: each loadable segment is loaded, the areas
/// that were there are still there (the trap area aside), the trap code at
/// `strap_addr` is mapped at the top page, and `plan` holds the copies of
/// the segments' file data.
pub open spec fn image_loaded(
    s0: UserMemorySets,
    s: UserMemorySets,
    m: PhysMemory,
    segs: Seq<ElfSegment>,
    strap_addr: u64,
    plan: Seq<CopyChunk>,
) -> bool {
    &&& forall|j: int|
        0 <= j < segs.len() && segs[j].kind == SegmentKind::Load ==> #[trigger] seg_loaded(s, m, segs[j], j as nat)
    &&& plan == copy_plan(segs, areas(s), segs.len())
    &&& areas(s).contains_key("trap_text"@)
    &&& areas(s)["trap_text"@].area == trap_text_area()
    &&& mapped(m, s.table.root_ppn.0, 0x7FF_FFFF) == Some((strap_addr / 4096) as u64)
    &&& forall|n: Seq<char>|
        #[trigger] areas(s0).contains_key(n) && n != "trap_text"@ ==> areas(s).contains_key(n) && areas(s)[n]
            == areas(s0)[n]
}

/// Frame `q` is the frame of one of the pages `lo..hi` in `fm`.
pub open spec fn frame_of_range(fm: Map<u64, u64>, lo: u64, hi: u64, q: u64) -> bool {
    exists|v: u64| lo <= v < hi && fm.contains_key(v) && #[trigger] fm[v] == q
}

/// What `clear_map_area` does, with `fm` the frames of the area and `lo..hi`
/// the pages: every word of their frames is zero, and every other frame
/// keeps its words.
pub open spec fn range_cleared(a: PhysMemory, b: PhysMemory, fm: Map<u64, u64>, lo: u64, hi: u64) -> bool {
    &&& b.base_ppn == a.base_ppn
    &&& b.words@.len() == a.words@.len()
    &&& forall|v: u64, j: int| lo <= v < hi && 0 <= j < 512 ==> #[trigger] b.word(fm[v], j) == 0
    &&& forall|q: u64, j: int|
        #![trigger b.word(q, j)]
        a.has_frame(q) && 0 <= j < 512 && !frame_of_range(fm, lo, hi, q) ==> b.word(q, j) == a.word(q, j)
}

/// The pages from the one holding `s` to the one holding `e - 1` (with `e`
/// rounded up), as (first, end).
pub open spec fn page_span(s: u64, e: u64) -> (u64, u64) {
    ((align_down(s as nat, size_4k()) / 4096) as u64, (align_up(e as nat, size_4k()) / 4096) as u64)
}

/// The user stack area of thread `thread_id`: the 8 KiB below its stack
/// top, readable and writable from user mode.
pub open spec fn stack_area(thread_id: usize) -> MemoryStaticArea {
    let end = (user_stack_top(thread_id as nat) as u64) & 0x0000_007F_FFFF_FFFF;
    MemoryStaticArea {
        vaddr_start: VirtualAddr(((end - 8192) as u64) & 0x0000_007F_FFFF_FFFF),
        vaddr_end: VirtualAddr(end),
        perm: MapPermission { bits: MAP_PERM_U | MAP_PERM_R | MAP_PERM_W },
    }
}

/// The trap context area of thread `thread_id`: its trap context page,
/// readable and writable.
pub open spec fn trap_context_area(thread_id: usize) -> MemoryStaticArea {
    let start = (user_trap_context_start(thread_id as nat) as u64) & 0x0000_007F_FFFF_FFFF;
    MemoryStaticArea {
        vaddr_start: VirtualAddr(start),
        vaddr_end: VirtualAddr(((start + 4096) as u64) & 0x0000_007F_FFFF_FFFF),
        perm: MapPermission { bits: MAP_PERM_R | MAP_PERM_W },
    }
}

/// Whether `add_new_user_map` takes area `a` under `name`: `can_map`
/// allows it and the area has a shape the table maps.
pub open spec fn user_map_ok(areas: Map<Seq<char>, FrameBasedArea>, name: Seq<char>, a: MemoryStaticArea) -> bool {
    can_map(areas, name, a) && area_mappable(a)
}

/// What `add_new_user_map` does, taking address space `s1` to `s2`,
/// allocator `a1` to `a2` and memory `m1` to `m2`, with result `r`.
pub open spec fn user_map_post(
    s1: UserMemorySets,
    s2: UserMemorySets,
    a1: StackFrameAllocator,
    a2: StackFrameAllocator,
    m1: PhysMemory,
    m2: PhysMemory,
    name: Seq<char>,
    area: MemoryStaticArea,
    r: bool,
) -> bool {
    &&& r == user_map_ok(areas(s1), name, area)
    &&& r ==> {
        let fb = areas(s2)[name];
        &&& areas(s2) == areas(s1).insert(name, fb)
        &&& fb.area == area
        &&& area_mapped_post(area, no_frames(), frame_map_view(fb.mem_frames), s1.table, s2.table, a1, a2, m1, m2)
    }
    &&& !r ==> s2 == s1 && a2 == a1 && m2 == m1
}

/// Area `area` was offered under `name` as `add_new_user_map` does (taking
/// `s0` to `s`), and then the pages of the area then named `name` were
/// cleared as `clear_map_area` does.
pub open spec fn user_area_added(
    s0: UserMemorySets,
    s: UserMemorySets,
    a0: StackFrameAllocator,
    a: StackFrameAllocator,
    m0: PhysMemory,
    m: PhysMemory,
    name: Seq<char>,
    area: MemoryStaticArea,
) -> bool {
    exists|m1: PhysMemory|
        #[trigger] user_map_post(s0, s, a0, a, m0, m1, name, area, user_map_ok(areas(s0), name, area))
            && areas(s).contains_key(name) && range_cleared(
            m1,
            m,
            frame_map_view(areas(s)[name].mem_frames),
            page_span(area.vaddr_start.0, area.vaddr_end.0).0,
            page_span(area.vaddr_start.0, area.vaddr_end.0).1,
        )
}

/// What `check_area` finds of area `a` in address space `s`, with
/// allocator `al` and memory `m`: the area has a shape the table maps,
/// none of its pages is mapped, and enough frames are free for its pages
/// and tables.
pub open spec fn area_check(s: UserMemorySets, al: StackFrameAllocator, m: PhysMemory, a: MemoryStaticArea) -> bool {
    let g = area_ranges(a);
    &&& area_mappable(a)
    &&& slots_free(m, s.table.root_ppn.0, g.0, g.1)
    &&& slots_free(m, s.table.root_ppn.0, g.2, g.3)
    &&& al.free_count() >= g.1 + g.3 + 6
}

/// A frame of the pages of area `a` that the area named `name` holds
/// serves as a table of the address space `s`.
pub open spec fn area_frame_is_table(s: UserMemorySets, m: PhysMemory, name: Seq<char>, a: MemoryStaticArea) -> bool {
    let span = page_span(a.vaddr_start.0, a.vaddr_end.0);
    let fm = frame_map_view(areas(s)[name].mem_frames);
    &&& s.table.root_ppn.0 != 0
    &&& areas(s).contains_key(name)
    &&& exists|v: u64|
        span.0 <= v < span.1 && fm.contains_key(v) && crate::mm::page_table::is_table(
            m,
            s.table.root_ppn.0,
            #[trigger] fm[v],
        )
}

/// `clear_map_area` finds every page of area `a` in the area named
/// `name` of `s`, with a frame of memory.
pub open spec fn clear_ready(s: UserMemorySets, m: PhysMemory, name: Seq<char>, a: MemoryStaticArea) -> bool {
    let span = page_span(a.vaddr_start.0, a.vaddr_end.0);
    let fm = frame_map_view(areas(s)[name].mem_frames);
    areas(s).contains_key(name) && forall|v: u64| span.0 <= v < span.1 ==> #[trigger] fm.contains_key(v) && m.has_frame(fm[v])
}

/// Where `add_and_clear` stops, offering area `a` under `name` to `s0`
/// (allocator `a0`, memory `m0`): the area may be added but `check_area`
/// refuses it; or, after `add_new_user_map`, a frame to clear serves as
/// a table, or a page to clear has no frame of memory.
pub open spec fn add_clear_stops(
    s0: UserMemorySets,
    a0: StackFrameAllocator,
    m0: PhysMemory,
    name: Seq<char>,
    a: MemoryStaticArea,
) -> bool {
    ||| can_map(areas(s0), name, a) && !area_check(s0, a0, m0, a)
    ||| exists|s2: UserMemorySets, a2: StackFrameAllocator, m2: PhysMemory|
        #[trigger] user_map_post(s0, s2, a0, a2, m0, m2, name, a, user_map_ok(areas(s0), name, a)) && (
        area_frame_is_table(s2, m2, name, a) || !clear_ready(s2, m2, name, a))
}

/// What `load_segment` does when it loads segment `seg`, number `j`,
/// taking `s` to `s2`, `al` to `al2` and `m` to `m2`: the area of the
/// segment, new, is added under `decimal(j)` with fresh frames mapped.
#[verifier::opaque]
pub open spec fn seg_step(
    s: UserMemorySets,
    s2: UserMemorySets,
    al: StackFrameAllocator,
    al2: StackFrameAllocator,
    m: PhysMemory,
    m2: PhysMemory,
    seg: ElfSegment,
    j: nat,
) -> bool {
    let g = area_ranges(seg_area(seg));
    let fb = areas(s2)[decimal(j)];
    &&& !areas(s).contains_key(decimal(j))
    &&& areas(s2) == areas(s).insert(decimal(j), fb)
    &&& seg_loaded(s2, m2, seg, j)
    &&& area_mappable(seg_area(seg))
    &&& slots_free(m, s.table.root_ppn.0, g.0, g.1)
    &&& slots_free(m, s.table.root_ppn.0, g.2, g.3)
    &&& area_mapped_post(seg_area(seg), no_frames(), frame_map_view(fb.mem_frames), s.table, s2.table, al, al2, m, m2)
}

/// The shape that `load_segment` wants of a segment: its end fits in 64
/// bits, and its area (cut to 39 bits) is not empty, starts on a page,
/// holds its file data, and the offsets of its file pages fit in 64 bits.
pub open spec fn seg_shape_ok(seg: ElfSegment) -> bool {
    let a = seg_area(seg);
    &&& seg.vaddr + seg.mem_size <= u64::MAX
    &&& a.vaddr_end.0 > a.vaddr_start.0
    &&& a.vaddr_end.0 - a.vaddr_start.0 >= seg.file_size
    &&& a.vaddr_start.0 % 4096 == 0
    &&& file_pages(seg).1 * 4096 <= u64::MAX - seg.offset
}

/// A page of the file data of `seg` has no frame in the area named
/// `decimal(j)` of `s`.
pub open spec fn seg_frames_missing(s: UserMemorySets, seg: ElfSegment, j: nat) -> bool {
    let f = file_pages(seg);
    exists|v: u64|
        f.0 <= v < f.0 + f.1 && !#[trigger] frame_map_view(areas(s)[decimal(j)].mem_frames).contains_key(v)
}

/// Where `load_segment` stops, loading segment `seg`, number `j`, into
/// `s` (allocator `al`, memory `m`): the segment has a shape it refuses,
/// `check_area` or `can_map` refuses its area, or after the area is
/// added a page of its file data has no frame.
pub open spec fn seg_stops(s: UserMemorySets, al: StackFrameAllocator, m: PhysMemory, seg: ElfSegment, j: nat) -> bool {
    ||| !seg_shape_ok(seg)
    ||| !area_check(s, al, m, seg_area(seg))
    ||| !can_map(areas(s), decimal(j), seg_area(seg))
    ||| exists|s2: UserMemorySets, al2: StackFrameAllocator, m2: PhysMemory|
        #[trigger] user_map_post(s, s2, al, al2, m, m2, decimal(j), seg_area(seg), true) && seg_frames_missing(s2, seg, j)
}

/// `ss`, `als` and `ms` are the address spaces, allocators and memories
/// that `load_image` goes through over the first `k` segments of `segs`:
/// a loadable segment takes one step as `seg_step` says, another none.
pub open spec fn loaded_in_turn(
    segs: Seq<ElfSegment>,
    ss: Seq<UserMemorySets>,
    als: Seq<StackFrameAllocator>,
    ms: Seq<PhysMemory>,
    k: int,
) -> bool {
    &&& 0 <= k <= segs.len()
    &&& ss.len() == k + 1
    &&& als.len() == k + 1
    &&& ms.len() == k + 1
    &&& forall|j: int| 0 <= j < k ==> #[trigger] turn_step(segs, ss, als, ms, j)
}

/// Step `j` of `loaded_in_turn`.
pub open spec fn turn_step(
    segs: Seq<ElfSegment>,
    ss: Seq<UserMemorySets>,
    als: Seq<StackFrameAllocator>,
    ms: Seq<PhysMemory>,
    j: int,
) -> bool {
    if segs[j].kind == SegmentKind::Load {
        seg_step(ss[j], ss[j + 1], als[j], als[j + 1], ms[j], ms[j + 1], segs[j], j as nat)
    } else {
        ss[j + 1] == ss[j] && als[j + 1] == als[j] && ms[j + 1] == ms[j]
    }
}

/// Where `load_image` stops, loading `segs` into `s0` (allocator `a0`,
/// memory `m0`): after the segments before it, a loadable segment stops
/// as `seg_stops` says; or, after all of them, the top page is mapped
/// already or too few frames are left for its tables.
pub open spec fn load_stops(s0: UserMemorySets, a0: StackFrameAllocator, m0: PhysMemory, segs: Seq<ElfSegment>) -> bool {
    exists|k: int, ss: Seq<UserMemorySets>, als: Seq<StackFrameAllocator>, ms: Seq<PhysMemory>|
        #[trigger] loaded_in_turn(segs, ss, als, ms, k) && ss[0] == s0 && als[0] == a0 && ms[0] == m0 && {
            ||| k < segs.len() && segs[k].kind == SegmentKind::Load && seg_stops(ss[k], als[k], ms[k], segs[k], k as nat)
            ||| k == segs.len() && (mapped(ms[k], ss[k].table.root_ppn.0, 0x7FF_FFFF).is_some() || als[k].free_count()
                < frames_needed(ms[k], ss[k].table.root_ppn.0, 0x7FF_FFFF))
        }
}

/// One more segment taken as `loaded_in_turn` says extends the states.
proof fn lemma_turn_push(
    segs: Seq<ElfSegment>,
    ss: Seq<UserMemorySets>,
    als: Seq<StackFrameAllocator>,
    ms: Seq<PhysMemory>,
    i: int,
    s: UserMemorySets,
    a: StackFrameAllocator,
    m: PhysMemory,
)
    requires
        loaded_in_turn(segs, ss, als, ms, i),
        i < segs.len(),
        segs[i].kind == SegmentKind::Load ==> seg_step(ss[i], s, als[i], a, ms[i], m, segs[i], i as nat),
        segs[i].kind != SegmentKind::Load ==> s == ss[i] && a == als[i] && m == ms[i],
    ensures
        loaded_in_turn(segs, ss.push(s), als.push(a), ms.push(m), i + 1),
{
    let (ss1, als1, ms1) = (ss.push(s), als.push(a), ms.push(m));
    assert forall|j: int| 0 <= j < i + 1 implies #[trigger] turn_step(segs, ss1, als1, ms1, j) by {
        if j < i {
            assert(ss1[j] == ss[j] && ss1[j + 1] == ss[j + 1]);
            assert(als1[j] == als[j] && als1[j + 1] == als[j + 1]);
            assert(ms1[j] == ms[j] && ms1[j + 1] == ms[j + 1]);
            assert(turn_step(segs, ss, als, ms, j));
        } else {
            assert(ss1[j] == ss[i] && ss1[j + 1] == s);
            assert(als1[j] == als[i] && als1[j + 1] == a);
            assert(ms1[j] == ms[i] && ms1[j + 1] == m);
        }
    }
}

/// A user address space: its page table and its areas by name.
pub struct UserMemorySets {
    pub table: DynamicPageTable,
    pub sets: AreaTable,
}

/// The areas of `s`, by name.
pub open spec fn areas(s: UserMemorySets) -> Map<Seq<char>, FrameBasedArea> {
    area_table_view(s.sets)
}

/// No page has a frame.
pub open spec fn no_frames() -> Map<u64, u64> {
    Map::empty()
}

/// Area `a` overlaps no area of `areas`.
pub open spec fn apart_from_all(areas: Map<Seq<char>, FrameBasedArea>, a: MemoryStaticArea) -> bool {
    forall|n: Seq<char>|
        #[trigger] areas.contains_key(n) ==> a.vaddr_start.0 >= areas[n].area.vaddr_end.0 || a.vaddr_end.0
            <= areas[n].area.vaddr_start.0
}

/// Whether `add_new_user_map` takes area `a` under `name`: always while
/// there is no area; otherwise when `a` is not empty, no area has the
/// name, and `a` overlaps no area.
pub open spec fn can_map(areas: Map<Seq<char>, FrameBasedArea>, name: Seq<char>, a: MemoryStaticArea) -> bool {
    areas.dom() =~= Set::<Seq<char>>::empty() || (a.vaddr_start.0 < a.vaddr_end.0 && !areas.contains_key(name)
        && apart_from_all(areas, a))
}

/// The page of the 39-bit address that `va` names.
pub open spec fn va_page(va: u64) -> u64 {
    ((va % 0x80_0000_0000) / 4096) as u64
}

/// The area that holds the trap code, at the top of the address space.
pub open spec fn trap_text_area() -> MemoryStaticArea {
    MemoryStaticArea {
        vaddr_start: VirtualAddr(0x7F_FFFF_F000),
        vaddr_end: VirtualAddr(0x7F_FFFF_FFFF),
        perm: MapPermission { bits: MAP_PERM_R | MAP_PERM_X },
    }
}

/// The `k`-th page where a process sees the frame buffer.
pub open spec fn fb_vpn(k: int) -> u64 {
    (0x200_0000 + k) as u64
}

/// Page `v` shares its slot with one of the first `n` frame-buffer pages.
pub open spec fn fb_page(v: u64, n: int) -> bool {
    exists|k: int| 0 <= k < n && #[trigger] same_slot(v, fb_vpn(k))
}

/// The area that covers the first `n` frame-buffer pages.
pub open spec fn framebuffer_area(n: int) -> MemoryStaticArea {
    MemoryStaticArea {
        vaddr_start: VirtualAddr(0x20_0000_0000),
        vaddr_end: VirtualAddr((fb_vpn(n) * 4096) as u64),
        perm: MapPermission { bits: MAP_PERM_R | MAP_PERM_W | MAP_PERM_U },
    }
}

/// The frame-buffer pages for `len` bytes at physical address `phy`: the
/// first frame and how many.
pub open spec fn fb_frames(phy: u64, len: u64) -> (u64, int) {
    let ps = align_down(phy as nat, size_4k());
    let pe = align_up((phy + len) as nat, size_4k());
    ((ps / 4096) as u64, (pe - ps) / 4096)
}

/// Distinct pages of the Sv39 space have distinct slots.
#[verifier::spinoff_prover]
proof fn lemma_small_slots(v: u64, w: u64)
    requires
        v < 0x800_0000,
        w < 0x800_0000,
        v != w,
    ensures
        !same_slot(v, w),
{
    lemma_idx_arith(v);
    lemma_idx_arith(w);
    vstd::arithmetic::div_mod::lemma_fundamental_div_mod(v as int, 512);
    vstd::arithmetic::div_mod::lemma_fundamental_div_mod(w as int, 512);
    vstd::arithmetic::div_mod::lemma_fundamental_div_mod((v / 512) as int, 512);
    vstd::arithmetic::div_mod::lemma_fundamental_div_mod((w / 512) as int, 512);
    vstd::arithmetic::div_mod::lemma_div_denominator(v as int, 512, 512);
    vstd::arithmetic::div_mod::lemma_div_denominator(w as int, 512, 512);
}

impl UserMemorySets {
    /// An empty address space: no table yet, no area.
    pub fn new() -> (r: Self)
        ensures
            r.table.root_ppn.0 == 0,
            r.table.page_table@ == Seq::<u64>::empty(),
            areas(r).dom() == Set::<Seq<char>>::empty(),
    {
        Self { table: DynamicPageTable::new(), sets: AreaTable::new() }
    }

    /// Whether `add_new_user_map` takes area `in_area` under `name`:
    /// always while there is no area; otherwise when `in_area` is not
    /// empty, no area has the name, and it overlaps no area.
    #[verifier::rlimit(60)]
    #[verifier::spinoff_prover]
    pub fn can_map_area(&self, name: &String, in_area: MemoryStaticArea) -> (r: bool)
        ensures
            r == can_map(areas(*self), name@, in_area),
    {
        let keys = self.sets.keys();
        let mut can: bool = true;
        if keys.len() > 0 {
            proof {
                assert(areas(*self).contains_key(keys@[0]@));
            }
            let wanted_start = in_area.vaddr_start.0;
            let wanted_end = in_area.vaddr_end.0;
            if wanted_start >= wanted_end {
                can = false;
            } else if self.sets.get(name).is_some() {
                can = false;
            } else {
                let mut i: usize = 0;
                while i < keys.len()
                    invariant
                        i <= keys@.len(),
                        
                        forall|j: int| 0 <= j < keys@.len() ==> areas(*self).contains_key(#[trigger] keys@[j]@),
                        forall|k: Seq<char>|
                            #[trigger] areas(*self).contains_key(k) ==> exists|j: int| 0 <= j < keys@.len() && keys@[j]@ == k,
                        can == forall|j: int|
                            0 <= j < i ==> wanted_start >= (#[trigger] areas(*self)[keys@[j]@]).area.vaddr_end.0
                                || wanted_end <= areas(*self)[keys@[j]@].area.vaddr_start.0,
                    decreases keys@.len() - i,
                {
                    let area = self.sets.get(&keys[i]).unwrap().area;
                    let addr_start = area.vaddr_start.0;
                    let addr_end = area.vaddr_end.0;
                    if !((wanted_start >= addr_end) || (wanted_end <= addr_start)) {
                        can = false;
                    }
                    i = i + 1;
                }
                proof {
                    if can {
                        assert forall|n: Seq<char>| #[trigger] areas(*self).contains_key(n) implies in_area.vaddr_start.0
                            >= areas(*self)[n].area.vaddr_end.0 || in_area.vaddr_end.0 <= areas(
                            *self,
                        )[n].area.vaddr_start.0 by {
                            let j = choose|j: int| 0 <= j < keys@.len() && keys@[j]@ == n;
                            assert(areas(*self)[keys@[j]@] == areas(*self)[n]);
                        }
                    } else {
                        let j = choose|j: int|
                            0 <= j < keys@.len() && !(wanted_start >= (#[trigger] areas(*self)[keys@[j]@]).area.vaddr_end.0
                                || wanted_end <= areas(*self)[keys@[j]@].area.vaddr_start.0);
                        assert(areas(*self).contains_key(keys@[j]@));
                    }
                }
            }
        } else {
            proof {
                assert forall|k: Seq<char>| !areas(*self).contains_key(k) by {
                    if areas(*self).contains_key(k) {
                        let j = choose|j: int| 0 <= j < keys@.len() && keys@[j]@ == k;
                    }
                }
                assert(areas(*self).dom() =~= Set::<Seq<char>>::empty());
            }
        }
        can
    }

    /// Adds area `in_area` under `name` and gives its pages frames, when
    /// `can_map` allows it and the area has a shape this table maps
    /// (`area_mappable`: at most 512 pages on each side of its 2 MiB
    /// blocks, at least one such page, and blocks below 8 GiB); says
    /// whether it did. Other areas are refused with false.
    #[verifier::rlimit(60)]
    #[verifier::spinoff_prover]
    pub fn add_new_user_map(
        &mut self,
        alloc: &mut StackFrameAllocator,
        m: &mut PhysMemory,
        name: String,
        in_area: MemoryStaticArea,
    ) -> (r: bool)
        requires
            alloc_ok(*old(alloc), *old(m)),
            table_ok(*old(m), old(self).table.root_ppn.0, old(alloc).free_frames()),
            user_map_ok(areas(*old(self)), name@, in_area) ==> {
                &&& area_free(*old(m), old(self).table.root_ppn.0, no_frames(), in_area)
                &&& old(alloc).free_count() >= area_ranges(in_area).1 + area_ranges(in_area).3 + 6
            },
        ensures
            r == user_map_ok(areas(*old(self)), name@, in_area),
            r ==> {
                let fb = areas(*final(self))[name@];
                &&& areas(*final(self)) == areas(*old(self)).insert(name@, fb)
                &&& fb.area == in_area
                &&& area_mapped_post(
                    in_area,
                    no_frames(),
                    frame_map_view(fb.mem_frames),
                    old(self).table,
                    final(self).table,
                    *old(alloc),
                    *final(alloc),
                    *old(m),
                    *final(m),
                )
            },
            !r ==> *final(self) == *old(self) && *final(alloc) == *old(alloc) && *final(m) == *old(m),
    {
        let can = self.can_map_area(&name, in_area) && mappable_exec(&in_area);
        if can {
            let mut area = FrameBasedArea::new(in_area);
            proof {
                assert(frame_map_view(area.mem_frames) =~= no_frames());
            }
            area.map_area(&mut self.table, alloc, m);
            let _ = self.sets.insert(name, area);
        }
        can
    }

    /// The physical address of the page that user address `va` lies in.
    fn page_paddr(&self, m: &PhysMemory, va: u64) -> (r: u64)
        requires
            self.table.root_ppn.0 != 0,
            path_in_memory(*m, self.table.root_ppn.0, va_page(va)),
            walk(*m, self.table.root_ppn.0, va_page(va)).is_some(),
        ensures
            r == page_pa(*m, self.table.root_ppn.0, va_page(va) as nat),
    {
        proof {
            crate::mm::address::lemma_masks(va);
            crate::mm::address::lemma_page_unshift(va % 0x80_0000_0000);
        }
        let vpn = VirtPageNum::from(VirtualAddr::from(va));
        crate::mm::memory_set::page_phys_addr(m, self.table.root_ppn, vpn.0)
    }

    /// The physical address of the trap context of thread `thread_id`.
    pub fn get_trap_context_paddr(&self, m: &PhysMemory, thread_id: usize) -> (r: u64)
        requires
            user_trap_context_start(thread_id as nat) <= u64::MAX,
            self.table.root_ppn.0 != 0,
            path_in_memory(*m, self.table.root_ppn.0, va_page(user_trap_context_start(thread_id as nat) as u64)),
            walk(*m, self.table.root_ppn.0, va_page(user_trap_context_start(thread_id as nat) as u64)).is_some(),
        ensures
            r == page_pa(*m, self.table.root_ppn.0, va_page(user_trap_context_start(thread_id as nat) as u64) as nat),
    {
        let start_va = get_user_trap_context_start(thread_id);
        self.page_paddr(m, start_va)
    }

    /// The physical address of the page below the top of the user stack of
    /// thread `thread_id`, where its start-up arguments go.
    pub fn get_user_start_args_paddr(&self, m: &PhysMemory, thread_id: usize) -> (r: u64)
        requires
            user_stack_top(thread_id as nat) <= u64::MAX,
            self.table.root_ppn.0 != 0,
            path_in_memory(*m, self.table.root_ppn.0, va_page((user_stack_top(thread_id as nat) - 4096) as u64)),
            walk(*m, self.table.root_ppn.0, va_page((user_stack_top(thread_id as nat) - 4096) as u64)).is_some(),
        ensures
            r == page_pa(*m, self.table.root_ppn.0, va_page((user_stack_top(thread_id as nat) - 4096) as u64) as nat),
    {
        let top = get_user_stack_top(thread_id);
        self.page_paddr(m, top - 4096)
    }

    /// Maps the trap code, at physical address `strap_addr`, read and run
    /// only, at the top page of the address space, and records it as the
    /// area "trap_text" (which has no frames of its own).
    #[verifier::spinoff_prover]
    pub fn set_trap_text_page(&mut self, alloc: &mut StackFrameAllocator, m: &mut PhysMemory, strap_addr: u64)
        requires
            strap_addr < 0x100_0000_0000_0000,
            alloc_ok(*old(alloc), *old(m)),
            table_ok(*old(m), old(self).table.root_ppn.0, old(alloc).free_frames()),
            old(alloc).free_count() >= frames_needed(*old(m), old(self).table.root_ppn.0, 0x7FF_FFFF),
            mapped(*old(m), old(self).table.root_ppn.0, 0x7FF_FFFF).is_none(),
        ensures
            ({
                let a = areas(*final(self))["trap_text"@];
                &&& areas(*final(self)) == areas(*old(self)).insert("trap_text"@, a)
                &&& a.area == trap_text_area()
                &&& frame_map_view(a.mem_frames).dom() == Set::<u64>::empty()
            }),
            mapped(*final(m), final(self).table.root_ppn.0, 0x7FF_FFFF) == Some((strap_addr / 4096) as u64),
            forall|v: u64|
                !same_slot(v, 0x7FF_FFFF) ==> #[trigger] mapped(*final(m), final(self).table.root_ppn.0, v) == mapped(
                    *old(m),
                    old(self).table.root_ppn.0,
                    v,
                ),
            final(self).table.root_ppn.0 != 0,
            old(self).table.root_ppn.0 != 0 ==> final(self).table.root_ppn == old(self).table.root_ppn,
            table_ok(*final(m), final(self).table.root_ppn.0, final(alloc).free_frames()),
            alloc_ok(*final(alloc), *final(m)),
            final(alloc).free_frames().subset_of(old(alloc).free_frames()),
            final(m).base_ppn == old(m).base_ppn,
            final(m).words@.len() == old(m).words@.len(),
    {
        let start_va = VirtualAddr::from(RISV_TRAP_TEXT_STRAT);
        let end_va = VirtualAddr::from(USIZE_MAX);
        let map_perm = MapPermission { bits: MAP_PERM_R }.union(MapPermission { bits: MAP_PERM_X });
        let map_area = MemoryStaticArea::new(start_va, end_va, map_perm);
        let area = FrameBasedArea::new(map_area);
        proof {
            crate::mm::address::lemma_masks(strap_addr);
            crate::mm::address::lemma_page_unshift(strap_addr);
            crate::mm::address::lemma_page_unshift(start_va.0);
            crate::mm::address::lemma_masks(RISV_TRAP_TEXT_STRAT);
            crate::mm::address::lemma_masks(USIZE_MAX);
        }
        let ppn = PhysPageNum::from(PhysAddr::from(strap_addr));
        let trap = String::from_str("trap_text");
        let _ = self.sets.insert(trap, area);
        let vpn = VirtPageNum::from(start_va);
        assert(vpn.0 == 0x7FF_FFFF);
        let flags = crate::mm::page_table::RisvPTEFlags::from_bits(map_perm.bits).unwrap();
        self.table.add_an_existed_page(alloc, m, vpn, ppn, flags);
    }

    /// Maps the frame buffer of `fb_len` bytes at physical address
    /// `phy_addrs`, page by page, at the address where processes see it,
    /// readable and writable from user mode, and records it as the area
    /// "framebuffer"; returns that address.
    #[verifier::rlimit(100)]
    #[verifier::spinoff_prover]
    pub fn add_framebuffer_addr(
        &mut self,
        alloc: &mut StackFrameAllocator,
        m: &mut PhysMemory,
        phy_addrs: u64,
        fb_len: u64,
    ) -> (r: isize)
        requires
            phy_addrs + fb_len + 0xFFF < 0x100_0000_0000_0000,
            fb_frames(phy_addrs, fb_len).0 + fb_frames(phy_addrs, fb_len).1 <= 0x1000_0000_0000,
            0x200_0000 + fb_frames(phy_addrs, fb_len).1 <= 0x800_0000,
            alloc_ok(*old(alloc), *old(m)),
            table_ok(*old(m), old(self).table.root_ppn.0, old(alloc).free_frames()),
            old(alloc).free_count() >= 3 * fb_frames(phy_addrs, fb_len).1,
            forall|k: int|
                0 <= k < fb_frames(phy_addrs, fb_len).1 ==> mapped(*old(m), old(self).table.root_ppn.0, #[trigger] fb_vpn(k)).is_none(),
        ensures
            r == USER_FRAMEBUFFER_MAPPED_ADDR as isize,
            ({
                let f = fb_frames(phy_addrs, fb_len);
                let a = areas(*final(self))["framebuffer"@];
                &&& forall|k: int|
                    0 <= k < f.1 ==> mapped(*final(m), final(self).table.root_ppn.0, #[trigger] fb_vpn(k)) == Some(
                        (f.0 + k) as u64,
                    )
                &&& forall|v: u64|
                    !fb_page(v, f.1) ==> #[trigger] mapped(*final(m), final(self).table.root_ppn.0, v) == mapped(
                        *old(m),
                        old(self).table.root_ppn.0,
                        v,
                    )
                &&& areas(*final(self)) == areas(*old(self)).insert("framebuffer"@, a)
                &&& a.area == framebuffer_area(f.1)
                &&& frame_map_view(a.mem_frames).dom() == Set::<u64>::empty()
            }),
            table_ok(*final(m), final(self).table.root_ppn.0, final(alloc).free_frames()),
            alloc_ok(*final(alloc), *final(m)),
            final(alloc).free_frames().subset_of(old(alloc).free_frames()),
            final(m).base_ppn == old(m).base_ppn,
            final(m).words@.len() == old(m).words@.len(),
    {
        let ghost f = fb_frames(phy_addrs, fb_len);
        proof {
            crate::mm::address::lemma_masks(phy_addrs);
            crate::mm::address::lemma_masks((phy_addrs + fb_len) as u64);
        }
        let phys_start = PhysAddr::from(phy_addrs).round_down_in_4k();
        let phys_end = PhysAddr::from(phy_addrs + fb_len).round_up_in_4k();
        let vaddr_start = VirtualAddr::from(USER_FRAMEBUFFER_MAPPED_ADDR);
        let pages: u64 = (phys_end.0 - phys_start.0) / 4096;
        proof {
            crate::mm::address::lemma_page_unshift(phys_start.0);
            crate::mm::address::lemma_page_unshift(vaddr_start.0);
            assert(vaddr_start.0 == 0x20_0000_0000) by {
                crate::mm::address::lemma_masks(USER_FRAMEBUFFER_MAPPED_ADDR);
            }
            vstd::arithmetic::div_mod::lemma_fundamental_div_mod(phys_start.0 as int, 4096);
            vstd::arithmetic::div_mod::lemma_fundamental_div_mod(phys_end.0 as int, 4096);
            vstd::arithmetic::div_mod::lemma_fundamental_div_mod_converse(
                (phys_end.0 - phys_start.0) as int,
                4096,
                phys_end.0 / 4096 - phys_start.0 / 4096,
                0,
            );
        }
        let mut vpn = VirtPageNum::from(vaddr_start);
        let mut ppn = PhysPageNum::from(phys_start);
        assert(pages == f.1 && ppn.0 == f.0 && vpn.0 == 0x200_0000);
        let map_perm = MapPermission { bits: MAP_PERM_R }.union(MapPermission { bits: MAP_PERM_W }).union(
            MapPermission { bits: MAP_PERM_U },
        );
        let flags = crate::mm::page_table::RisvPTEFlags::from_bits(map_perm.bits).unwrap();
        let ghost m0 = *m;
        let ghost root0 = self.table.root_ppn.0;
        let mut i: u64 = 0;
        while i < pages
            invariant
                i <= pages,
                pages == f.1,
                vpn.0 == 0x200_0000 + i,
                ppn.0 == f.0 + i,
                f.0 + f.1 <= 0x1000_0000_0000,
                0x200_0000 + f.1 <= 0x800_0000,
                alloc_ok(*alloc, *m),
                table_ok(*m, self.table.root_ppn.0, alloc.free_frames()),
                alloc.free_count() >= 3 * (pages - i),
                alloc.free_frames().subset_of(old(alloc).free_frames()),
                m.base_ppn == old(m).base_ppn,
                m.words@.len() == old(m).words@.len(),
                i > 0 ==> self.table.root_ppn.0 != 0,
                self.sets == old(self).sets,
                forall|k: int| 0 <= k < i ==> mapped(*m, self.table.root_ppn.0, #[trigger] fb_vpn(k)) == Some((f.0 + k) as u64),
                forall|k: int| i <= k < pages ==> mapped(*m, self.table.root_ppn.0, #[trigger] fb_vpn(k)).is_none(),
                forall|v: u64| !fb_page(v, i as int) ==> #[trigger] mapped(*m, self.table.root_ppn.0, v) == mapped(m0, root0, v),
            decreases pages - i,
        {
            let ghost m_before = *m;
            let ghost root_before = self.table.root_ppn.0;
            proof {
                assert(mapped(*m, self.table.root_ppn.0, fb_vpn(i as int)).is_none());
                assert(vpn.0 == fb_vpn(i as int));
            }
            self.table.add_an_existed_page(alloc, m, vpn, ppn, flags);
            proof {
                let root = self.table.root_ppn.0;
                assert forall|k: int| 0 <= k < i + 1 implies mapped(*m, root, #[trigger] fb_vpn(k)) == Some((f.0 + k) as u64) by {
                    if k < i {
                        lemma_small_slots(fb_vpn(k), fb_vpn(i as int));
                        assert(mapped(*m, root, fb_vpn(k)) == mapped(m_before, root_before, fb_vpn(k)));
                    }
                }
                assert forall|k: int| i + 1 <= k < pages implies mapped(*m, root, #[trigger] fb_vpn(k)).is_none() by {
                    lemma_small_slots(fb_vpn(k), fb_vpn(i as int));
                    assert(mapped(*m, root, fb_vpn(k)) == mapped(m_before, root_before, fb_vpn(k)));
                }
                assert forall|v: u64| !fb_page(v, (i + 1) as int) implies #[trigger] mapped(*m, root, v) == mapped(m0, root0, v) by {
                    assert(!same_slot(v, fb_vpn(i as int)));
                    assert(mapped(*m, root, v) == mapped(m_before, root_before, v));
                    if fb_page(v, i as int) {
                        let k = choose|k: int| 0 <= k < i && #[trigger] same_slot(v, fb_vpn(k));
                        assert(0 <= k < i + 1 && same_slot(v, fb_vpn(k)));
                    }
                }
            }
            vpn.step();
            ppn.step();
            i = i + 1;
        }
        let map_area = MemoryStaticArea::new(vaddr_start, VirtualAddr::from(vpn), map_perm);
        let area = FrameBasedArea::new(map_area);
        proof {
            crate::mm::address::lemma_page_shift(vpn.0);
        }
        let name = String::from_str("framebuffer");
        let _ = self.sets.insert(name, area);
        USER_FRAMEBUFFER_MAPPED_ADDR as isize
    }

    /// Whether the first `n` slots from `vs` map nothing.
    fn range_free(&self, m: &PhysMemory, free: Ghost<Set<u64>>, vs: u64, n: u64) -> (r: bool)
        requires
            vs < 0x800_0000,
            n <= 512,
            table_ok(*m, self.table.root_ppn.0, free@),
        ensures
            r == slots_free(*m, self.table.root_ppn.0, vs, n as int),
    {
        let mut k: u64 = 0;
        while k < n
            invariant
                k <= n,
                n <= 512,
                vs < 0x800_0000,
                table_ok(*m, self.table.root_ppn.0, free@),
                slots_free(*m, self.table.root_ppn.0, vs, k as int),
            decreases n - k,
        {
            let slot = slot_exec(vs, k);
            proof {
                if self.table.root_ppn.0 != 0 {
                    crate::mm::page_table::lemma_wf_path(*m, self.table.root_ppn.0, free@, slot);
                }
            }
            if self.table.do_table_walk(m, VirtPageNum(slot)).is_some() {
                return false;
            }
            k = k + 1;
        }
        true
    }

    /// Whether area `a` can be mapped here now: its ranges are as
    /// `map_area` needs, their slots map nothing, and at least six frames
    /// more than its pages are free.
    fn check_area(&self, alloc: &StackFrameAllocator, m: &PhysMemory, a: &MemoryStaticArea) -> (r: bool)
        requires
            alloc.cur_ppn <= alloc.last_ppn,
            table_ok(*m, self.table.root_ppn.0, alloc.free_frames()),
        ensures
            r == ({
                let g = area_ranges(*a);
                &&& area_mappable(*a)
                &&& slots_free(*m, self.table.root_ppn.0, g.0, g.1)
                &&& slots_free(*m, self.table.root_ppn.0, g.2, g.3)
                &&& alloc.free_count() >= g.1 + g.3 + 6
            }),
    {
        if !mappable_exec(a) {
            return false;
        }
        let g = area_ranges_exec(a);
        proof {
            lemma_area_ranges(*a);
        }
        if !self.range_free(m, Ghost(alloc.free_frames()), g.0, g.1) {
            return false;
        }
        if !self.range_free(m, Ghost(alloc.free_frames()), g.2, g.3) {
            return false;
        }
        alloc.has_free_frames(g.1 + g.3 + 6)
    }

    /// Loads segment `seg`, number `i`: adds its area under the name
    /// `decimal(i)` with fresh frames, and adds to `chunks` the copies of
    /// its file data. False exactly where `seg_stops` says: a shape it
    /// refuses, an area that `check_area` or `can_map` refuses, or a file
    /// page left without a frame.
    #[verifier::rlimit(100)]
    #[verifier::spinoff_prover]
    fn load_segment(
        &mut self,
        alloc: &mut StackFrameAllocator,
        m: &mut PhysMemory,
        seg: ElfSegment,
        i: u16,
        chunks: &mut Vec<CopyChunk>,
    ) -> (r: bool)
        requires
            alloc_ok(*old(alloc), *old(m)),
            table_ok(*old(m), old(self).table.root_ppn.0, old(alloc).free_frames()),
            seg.kind == SegmentKind::Load,
        ensures
            r ==> seg_step(*old(self), *final(self), *old(alloc), *final(alloc), *old(m), *final(m), seg, i as nat),
            r ==> final(chunks)@ == old(chunks)@ + seg_plan(
                seg,
                frame_map_view(areas(*final(self))[decimal(i as nat)].mem_frames),
            ),
            !r ==> seg_stops(*old(self), *old(alloc), *old(m), seg, i as nat),
            table_ok(*final(m), final(self).table.root_ppn.0, final(alloc).free_frames()),
            alloc_ok(*final(alloc), *final(m)),
    {
        if !(seg.vaddr <= u64::MAX - seg.mem_size) {
            proof {
                assert(!seg_shape_ok(seg));
            }
            return false;
        }
        let mut map_perm = MapPermission { bits: MAP_PERM_U };
        if seg.readable {
            map_perm = map_perm.union(MapPermission { bits: MAP_PERM_R });
        }
        if seg.writable {
            map_perm = map_perm.union(MapPermission { bits: MAP_PERM_W });
        }
        if seg.executable {
            map_perm = map_perm.union(MapPermission { bits: MAP_PERM_X });
        }
        let start_va = VirtualAddr::from(seg.vaddr);
        let end_va = VirtualAddr::from(seg.vaddr + seg.mem_size);
        let map_area = MemoryStaticArea::new(start_va, end_va, map_perm);
        assert(map_area == seg_area(seg));
        if !self.check_area(alloc, m, &map_area) {
            proof {
                assert(!area_check(*self, *alloc, *m, seg_area(seg)));
            }
            return false;
        }
        let name = decimal_name(i as usize);
        let ghost g = area_ranges(map_area);
        let ghost areas0 = areas(*self);
        let ghost s_pre = *self;
        let ghost a_pre = *alloc;
        let ghost m_pre = *m;
        let added = self.add_new_user_map(alloc, m, name, map_area);
        if !added {
            proof {
                assert(!can_map(areas(s_pre), decimal(i as nat), seg_area(seg)));
            }
            return false;
        }
        let ghost s_post = *self;
        proof {
            assert(user_map_post(s_pre, s_post, a_pre, *alloc, m_pre, *m, decimal(i as nat), seg_area(seg), true));
        }
        proof {
            lemma_area_ranges(map_area);
            if areas0.dom() =~= Set::<Seq<char>>::empty() {
                assert(!areas0.contains_key(decimal(i as nat)));
            }
        }
        let v_start = map_area.vaddr_start.0;
        let v_end = map_area.vaddr_end.0;
        if !(v_end > v_start) || v_end - v_start < seg.file_size || v_start % 4096 != 0 {
            proof {
                assert(!seg_shape_ok(seg));
            }
            return false;
        }
        proof {
            crate::mm::address::lemma_masks(seg.vaddr);
        }
        let start_vpn: u64 = v_start / 4096;
        let end_vpn: u64 = crate::mm::address::round_up_in_4k(v_start + seg.file_size) / 4096;
        let pages: u64 = end_vpn - start_vpn;
        proof {
            assert(file_pages(seg) == (start_vpn, pages as int));
        }
        if !(pages * 4096 <= u64::MAX - seg.offset) {
            proof {
                assert(!seg_shape_ok(seg));
            }
            return false;
        }
        let name2 = decimal_name(i as usize);
        let area_ref = self.sets.get(&name2).unwrap();
        let ghost fm = frame_map_view(area_ref.mem_frames);
        proof {
            assert(fm == frame_map_view(areas(s_post)[decimal(i as nat)].mem_frames));
        }
        let mut all: bool = true;
        let mut v: u64 = start_vpn;
        while v < end_vpn
            invariant
                start_vpn <= v <= end_vpn,
                fm == frame_map_view(area_ref.mem_frames),
                all ==> forall|w: u64| start_vpn <= w < v ==> #[trigger] fm.contains_key(w),
                !all ==> exists|w: u64| start_vpn <= w < end_vpn && !#[trigger] fm.contains_key(w),
            decreases end_vpn - v,
        {
            if area_ref.mem_frames.get(v).is_none() {
                proof {
                    assert(!fm.contains_key(v));
                }
                all = false;
                v = end_vpn;
            } else {
                v = v + 1;
            }
        }
        if !all {
            proof {
                assert(seg_frames_missing(s_post, seg, i as nat));
            }
            return false;
        }
        let ghost base = chunks@;
        let mut index: u64 = start_vpn;
        while index < end_vpn
            invariant
                start_vpn <= index <= end_vpn,
                pages == end_vpn - start_vpn,
                pages * 4096 <= u64::MAX - seg.offset,
                fm == frame_map_view(area_ref.mem_frames),
                forall|w: u64| start_vpn <= w < end_vpn ==> #[trigger] fm.contains_key(w),
                table_ok(*m, self.table.root_ppn.0, alloc.free_frames()),
                alloc_ok(*alloc, *m),
                chunks@ == base + Seq::new(
                    (index - start_vpn) as nat,
                    |p: int| CopyChunk { dst_ppn: fm[(start_vpn + p) as u64], src_offset: (seg.offset + p * 4096) as u64 },
                ),
            decreases end_vpn - index,
        {
            match area_ref.mem_frames.get(index) {
                None => {
                    proof {
                        assert(fm.contains_key(index));
                    }
                    return false;
                },
                Some(f) => {
                    let ghost before = chunks@;
                    chunks.push(CopyChunk { dst_ppn: f, src_offset: seg.offset + (index - start_vpn) * 4096 });
                    proof {
                        assert(chunks@ =~= base + Seq::new(
                            (index + 1 - start_vpn) as nat,
                            |p: int| CopyChunk { dst_ppn: fm[(start_vpn + p) as u64], src_offset: (seg.offset + p * 4096) as u64 },
                        ));
                    }
                },
            }
            index = index + 1;
        }
        proof {
            let fb = areas(*self)[decimal(i as nat)];
            assert(fb == *area_ref);
            assert(file_pages(seg) == (start_vpn, pages as int));
            assert(chunks@ =~= base + seg_plan(seg, fm));
        }
        proof {
            reveal(seg_step);
        }
        true
    }

    /// Loads the segments of `image`: each loadable segment, number `i`,
    /// gets an area named by `i` in decimal, with fresh frames (the
    /// returned copies fill them with the segment's file data), then the
    /// trap code at `strap_addr` is mapped at the top page. `None` exactly
    /// where `load_stops` says: a segment that `load_segment` refuses, or
    /// the top page already mapped or too few frames left for its tables.
    #[verifier::rlimit(100)]
    #[verifier::spinoff_prover]
    pub fn load_image(
        &mut self,
        alloc: &mut StackFrameAllocator,
        m: &mut PhysMemory,
        image: &ElfImage,
        strap_addr: u64,
    ) -> (r: Option<Vec<CopyChunk>>)
        requires
            alloc_ok(*old(alloc), *old(m)),
            table_ok(*old(m), old(self).table.root_ppn.0, old(alloc).free_frames()),
            image.segments@.len() <= 0xFFFF,
            strap_addr < 0x100_0000_0000_0000,
        ensures
            r is Some ==> image_loaded(*old(self), *final(self), *final(m), image.segments@, strap_addr, r.unwrap()@),
            r is None ==> load_stops(*old(self), *old(alloc), *old(m), image.segments@),
            table_ok(*final(m), final(self).table.root_ppn.0, final(alloc).free_frames()),
            alloc_ok(*final(alloc), *final(m)),
    {
        let ghost segs = image.segments@;
        let ghost s0 = *self;
        let mut chunks: Vec<CopyChunk> = Vec::new();
        let ghost mut ss: Seq<UserMemorySets> = seq![*self];
        let ghost mut als: Seq<StackFrameAllocator> = seq![*alloc];
        let ghost mut ms: Seq<PhysMemory> = seq![*m];
        let mut i: usize = 0;
        while i < image.segments.len()
            invariant
                loaded_in_turn(segs, ss, als, ms, i as int),
                ss[0] == *old(self),
                als[0] == *old(alloc),
                ms[0] == *old(m),
                ss[i as int] == *self,
                als[i as int] == *alloc,
                ms[i as int] == *m,
                i <= segs.len(),
                segs == image.segments@,
                segs.len() <= 0xFFFF,
                alloc_ok(*alloc, *m),
                table_ok(*m, self.table.root_ppn.0, alloc.free_frames()),
                forall|j: int|
                    0 <= j < i && segs[j].kind == SegmentKind::Load ==> #[trigger] seg_loaded(*self, *m, segs[j], j as nat),
                forall|j: int|
                    0 <= j < i && segs[j].kind == SegmentKind::Load ==> area_mappable(seg_area(#[trigger] segs[j])),
                forall|n: Seq<char>|
                    #[trigger] areas(s0).contains_key(n) ==> areas(*self).contains_key(n) && areas(*self)[n] == areas(s0)[n],
                chunks@ == copy_plan(segs, areas(*self), i as nat),
            decreases segs.len() - i,
        {
            let seg = image.segments[i];
            if seg.kind == SegmentKind::Load {
                let ghost s1 = *self;
                let ghost m1 = *m;
                let ghost g = area_ranges(seg_area(seg));
                let ghost c1 = chunks@;
                let ghost a1 = *alloc;
                let ok = self.load_segment(alloc, m, seg, i as u16, &mut chunks);
                if !ok {
                    proof {
                        assert(loaded_in_turn(segs, ss, als, ms, i as int));
                    }
                    return None;
                }
                proof {
                    reveal(seg_step);
                    assert(segs[i as int] == seg);
                    lemma_turn_push(segs, ss, als, ms, i as int, *self, *alloc, *m);
                    ss = ss.push(*self);
                    als = als.push(*alloc);
                    ms = ms.push(*m);
                    lemma_area_ranges(seg_area(seg));
                    assert forall|j: int| 0 <= j < i && segs[j].kind == SegmentKind::Load implies decimal(j as nat)
                        != decimal(i as nat) by {
                        assert(seg_loaded(s1, m1, segs[j], j as nat));
                    }
                    assert forall|n: Seq<char>| #[trigger] areas(s1).contains_key(n) implies areas(*self).contains_key(n)
                        && areas(*self)[n] == areas(s1)[n] by {}
                    lemma_keep_loaded(s1, *self, m1, *m, segs, i as nat, g);
                    assert(seg_loaded(*self, *m, segs[i as int], i as nat));
                    lemma_copy_plan_same(segs, areas(s1), areas(*self), i as nat);
                    assert(chunks@ == copy_plan(segs, areas(*self), (i + 1) as nat));
                }
            } else {
                proof {
                    assert(copy_plan(segs, areas(*self), (i + 1) as nat) =~= copy_plan(segs, areas(*self), i as nat));
                    assert(segs[i as int] == seg);
                    assert(segs[i as int].kind != SegmentKind::Load);
                    lemma_turn_push(segs, ss, als, ms, i as int, *self, *alloc, *m);
                    ss = ss.push(*self);
                    als = als.push(*alloc);
                    ms = ms.push(*m);
                }
            }
            i = i + 1;
        }
        let trap_vpn = VirtPageNum(0x7FF_FFFF);
        proof {
            if self.table.root_ppn.0 != 0 {
                crate::mm::page_table::lemma_wf_path(*m, self.table.root_ppn.0, alloc.free_frames(), 0x7FF_FFFF);
            }
        }
        if self.table.do_table_walk(m, trap_vpn).is_some() {
            proof {
                assert(loaded_in_turn(segs, ss, als, ms, segs.len() as int));
            }
            return None;
        }
        let needed = self.table.frames_needed_exec(m, Ghost(alloc.free_frames()), trap_vpn);
        if !alloc.has_free_frames(needed) {
            proof {
                assert(loaded_in_turn(segs, ss, als, ms, segs.len() as int));
            }
            return None;
        }
        let ghost s2 = *self;
        let ghost m2 = *m;
        self.set_trap_text_page(alloc, m, strap_addr);
        proof {
            reveal_strlit("trap_text");
            assert forall|j: int| 0 <= j < segs.len() && segs[j].kind == SegmentKind::Load implies #[trigger] seg_loaded(
                *self,
                *m,
                segs[j],
                j as nat,
            ) by {
                assert(seg_loaded(s2, m2, segs[j], j as nat));
                lemma_decimal_first(j as nat);
                assert(decimal(j as nat) != "trap_text"@) by {
                    assert("trap_text"@[0] == 't');
                }
                let a = areas(s2)[decimal(j as nat)];
                let r = area_ranges(seg_area(segs[j]));
                let fm = frame_map_view(a.mem_frames);
                assert(frames_mapped(m2, s2.table.root_ppn.0, fm, r.0, r.1));
                assert(frames_mapped(m2, s2.table.root_ppn.0, fm, r.2, r.3));
                lemma_area_ranges(seg_area(segs[j]));
                assert(fm.contains_key(frame_key(r.0, 0)));
                assert(s2.table.root_ppn.0 != 0);
                assert forall|k: int| 0 <= k < r.1 implies #[trigger] fm.contains_key(frame_key(r.0, k)) && mapped(
                    *m,
                    self.table.root_ppn.0,
                    l3_slot(r.0, k),
                ) == Some(fm[frame_key(r.0, k)]) by {
                    assert(fm.contains_key(frame_key(r.0, k)));
                    if same_slot(l3_slot(r.0, k), 0x7FF_FFFF) {
                        lemma_same_slot_mapped(m2, s2.table.root_ppn.0, l3_slot(r.0, k), 0x7FF_FFFF);
                    }
                }
                assert forall|k: int| 0 <= k < r.3 implies #[trigger] fm.contains_key(frame_key(r.2, k)) && mapped(
                    *m,
                    self.table.root_ppn.0,
                    l3_slot(r.2, k),
                ) == Some(fm[frame_key(r.2, k)]) by {
                    assert(fm.contains_key(frame_key(r.2, k)));
                    if same_slot(l3_slot(r.2, k), 0x7FF_FFFF) {
                        lemma_same_slot_mapped(m2, s2.table.root_ppn.0, l3_slot(r.2, k), 0x7FF_FFFF);
                    }
                }
            }
            assert forall|j: int| 0 <= j < segs.len() && segs[j].kind == SegmentKind::Load implies #[trigger] areas(
                *self,
            )[decimal(j as nat)] == areas(s2)[decimal(j as nat)] by {
                assert(seg_loaded(s2, m2, segs[j], j as nat));
                lemma_decimal_first(j as nat);
                assert(decimal(j as nat) != "trap_text"@) by {
                    assert("trap_text"@[0] == 't');
                }
            }
            lemma_copy_plan_same(segs, areas(s2), areas(*self), segs.len());
        }
        Some(chunks)
    }

    /// Loads the ELF file `elf_data`, parsed by `parse_elf`, as
    /// `load_image` does, and returns its entry point and the copies of
    /// its segments' file data. `None` exactly where the file does not
    /// parse, or loading stops as `load_stops` says.
    pub fn load_with_elf(
        &mut self,
        alloc: &mut StackFrameAllocator,
        m: &mut PhysMemory,
        elf_data: &[u8],
        strap_addr: u64,
    ) -> (r: Option<(u64, Vec<CopyChunk>)>)
        requires
            alloc_ok(*old(alloc), *old(m)),
            table_ok(*old(m), old(self).table.root_ppn.0, old(alloc).free_frames()),
            strap_addr < 0x100_0000_0000_0000,
        ensures
            match elf_header_of(elf_data@) {
                None => r is None,
                Some(h) => {
                    &&& !segments_ok(elf_data@, h.1) ==> r is None
                    &&& r is None ==> !segments_ok(elf_data@, h.1) || load_stops(
                        *old(self),
                        *old(alloc),
                        *old(m),
                        Seq::new(h.1 as nat, |j: int| elf_segment_of(elf_data@, j as u16).unwrap()),
                    )
                    &&& r is Some ==> r.unwrap().0 == h.0 && image_loaded(
                        *old(self),
                        *final(self),
                        *final(m),
                        Seq::new(h.1 as nat, |j: int| elf_segment_of(elf_data@, j as u16).unwrap()),
                        strap_addr,
                        r.unwrap().1@,
                    )
                },
            },
            table_ok(*final(m), final(self).table.root_ppn.0, final(alloc).free_frames()),
            alloc_ok(*final(alloc), *final(m)),
    {
        let image = match parse_elf(elf_data) {
            Some(img) => img,
            None => {
                return None;
            },
        };
        proof {
            let h = elf_header_of(elf_data@).unwrap();
            assert(image.segments@ =~= Seq::new(h.1 as nat, |j: int| elf_segment_of(elf_data@, j as u16).unwrap()));
        }
        match self.load_image(alloc, m, &image, strap_addr) {
            Some(chunks) => Some((image.entry, chunks)),
            None => None,
        }
    }

    /// Sets every word of the frames of pages `v_start..v_end` (rounded
    /// out to whole pages) of the area `name` to zero. False, with nothing
    /// changed, where there is no such area or a page has no frame of
    /// memory.
    #[verifier::rlimit(60)]
    #[verifier::spinoff_prover]
    pub fn clear_map_area(&self, m: &mut PhysMemory, name: &String, v_start: VirtualAddr, v_end: VirtualAddr) -> (r: bool)
        requires
            v_end.0 + 0xFFF <= u64::MAX,
        ensures
            ({
                let span = page_span(v_start.0, v_end.0);
                let fm = frame_map_view(areas(*self)[name@].mem_frames);
                &&& r == (areas(*self).contains_key(name@) && forall|v: u64|
                    span.0 <= v < span.1 ==> #[trigger] fm.contains_key(v) && old(m).has_frame(fm[v]))
                &&& r ==> range_cleared(*old(m), *final(m), fm, span.0, span.1)
                &&& !r ==> *final(m) == *old(m)
            }),
    {
        let area = match self.sets.get(name) {
            Some(a) => a,
            None => {
                return false;
            },
        };
        let start_vpn = crate::mm::address::round_down_in_4k(v_start.0) / 4096;
        let end_vpn = crate::mm::address::round_up_in_4k(v_end.0) / 4096;
        let ghost fm = frame_map_view(area.mem_frames);
        proof {
            assert(areas(*self).contains_key(name@));
            assert(fm == frame_map_view(areas(*self)[name@].mem_frames));
            assert(start_vpn == page_span(v_start.0, v_end.0).0);
            assert(end_vpn == page_span(v_start.0, v_end.0).1);
        }
        let mut v: u64 = start_vpn;
        while v < end_vpn
            invariant
                start_vpn <= v,
                v <= end_vpn || v == start_vpn,
                *m == *old(m),
                areas(*self).contains_key(name@),
                fm == frame_map_view(areas(*self)[name@].mem_frames),
                start_vpn == page_span(v_start.0, v_end.0).0,
                end_vpn == page_span(v_start.0, v_end.0).1,
                fm == frame_map_view(area.mem_frames),
                forall|w: u64| start_vpn <= w < v ==> #[trigger] fm.contains_key(w) && m.has_frame(fm[w]),
            decreases end_vpn - v,
        {
            match area.mem_frames.get(v) {
                None => {
                    proof {
                        assert(!fm.contains_key(v));
                    }
                    return false;
                },
                Some(f) => {
                    if !m.contains_frame(f) {
                        proof {
                            assert(!(fm.contains_key(v) && old(m).has_frame(fm[v])));
                        }
                        return false;
                    }
                },
            }
            v = v + 1;
        }
        let mut v: u64 = start_vpn;
        while v < end_vpn
            invariant
                start_vpn <= v,
                v <= end_vpn || v == start_vpn,
                fm == frame_map_view(area.mem_frames),
                forall|w: u64| start_vpn <= w < end_vpn ==> #[trigger] fm.contains_key(w) && old(m).has_frame(fm[w]),
                m.base_ppn == old(m).base_ppn,
                m.words@.len() == old(m).words@.len(),
                forall|w: u64, j: int| start_vpn <= w < v && 0 <= j < 512 ==> #[trigger] m.word(fm[w], j) == 0,
                forall|q: u64, j: int|
                    #![trigger m.word(q, j)]
                    old(m).has_frame(q) && 0 <= j < 512 && !frame_of_range(fm, start_vpn, v, q) ==> m.word(q, j) == old(
                        m,
                    ).word(q, j),
            decreases end_vpn - v,
        {
            let f = area.mem_frames.get(v).unwrap();
            let ghost before = *m;
            proof {
                assert(fm.contains_key(v) && old(m).has_frame(fm[v]));
            }
            crate::mm::page_table::clear_frame_words(m, f);
            proof {
                assert forall|w: u64, j: int| start_vpn <= w < v + 1 && 0 <= j < 512 implies #[trigger] m.word(fm[w], j)
                    == 0 by {
                    if w < v && fm[w] != f {
                        assert(before.word(fm[w], j) == 0);
                        assert(fm.contains_key(w));
                        assert(old(m).has_frame(fm[w]));
                    }
                }
                assert forall|q: u64, j: int|
                    old(m).has_frame(q) && 0 <= j < 512 && !frame_of_range(fm, start_vpn, (v + 1) as u64, q) implies #[trigger] m.word(
                    q,
                    j,
                ) == old(m).word(q, j) by {
                    assert(q != fm[v]);
                    assert(!frame_of_range(fm, start_vpn, v, q)) by {
                        if frame_of_range(fm, start_vpn, v, q) {
                            let w = choose|w: u64| start_vpn <= w < v && fm.contains_key(w) && #[trigger] fm[w] == q;
                            assert(start_vpn <= w < v + 1 && fm.contains_key(w) && fm[w] == q);
                        }
                    }
                    assert(before.has_frame(q));
                }
            }
            v = v + 1;
        }
        true
    }

    /// Maps a user stack for thread `thread_id` below its stack top,
    /// readable and writable from user mode, as the area "usr_stack", and
    /// clears it. False exactly where its top lies below 8 KiB or
    /// `add_and_clear` stops (`add_clear_stops`).
    pub fn add_user_stack(&mut self, alloc: &mut StackFrameAllocator, m: &mut PhysMemory, thread_id: usize) -> (r: bool)
        requires
            user_stack_top(thread_id as nat) <= u64::MAX,
            alloc_ok(*old(alloc), *old(m)),
            table_ok(*old(m), old(self).table.root_ppn.0, old(alloc).free_frames()),
        ensures
            r ==> user_area_added(
                *old(self),
                *final(self),
                *old(alloc),
                *final(alloc),
                *old(m),
                *final(m),
                "usr_stack"@,
                stack_area(thread_id),
            ),
            r ==> table_ok(*final(m), final(self).table.root_ppn.0, final(alloc).free_frames()),
            r ==> alloc_ok(*final(alloc), *final(m)),
            !r ==> (user_stack_top(thread_id as nat) as u64) & 0x0000_007F_FFFF_FFFF < 8192 || add_clear_stops(
                *old(self),
                *old(alloc),
                *old(m),
                "usr_stack"@,
                stack_area(thread_id),
            ),
    {
        let top = get_user_stack_top(thread_id);
        let end_va = VirtualAddr::from(top);
        proof {
            crate::mm::address::lemma_masks(top);
        }
        if end_va.0 < 8192 {
            return false;
        }
        let start_va = VirtualAddr::from(end_va.0 - 8192);
        proof {
            crate::mm::address::lemma_masks((end_va.0 - 8192) as u64);
        }
        let map_perm = MapPermission { bits: MAP_PERM_U }.union(MapPermission { bits: MAP_PERM_R }).union(
            MapPermission { bits: MAP_PERM_W },
        );
        let map_area = MemoryStaticArea::new(start_va, end_va, map_perm);
        assert(map_area == stack_area(thread_id));
        self.add_and_clear(alloc, m, String::from_str("usr_stack"), map_area)
    }

    /// Maps the trap context page of thread `thread_id`, readable and
    /// writable (not from user mode), as the area "trap_context", and
    /// clears it. False exactly where `add_and_clear` stops
    /// (`add_clear_stops`).
    pub fn add_trap_context(&mut self, alloc: &mut StackFrameAllocator, m: &mut PhysMemory, thread_id: usize) -> (r: bool)
        requires
            user_trap_context_start(thread_id as nat) <= u64::MAX,
            alloc_ok(*old(alloc), *old(m)),
            table_ok(*old(m), old(self).table.root_ppn.0, old(alloc).free_frames()),
        ensures
            r ==> user_area_added(
                *old(self),
                *final(self),
                *old(alloc),
                *final(alloc),
                *old(m),
                *final(m),
                "trap_context"@,
                trap_context_area(thread_id),
            ),
            r ==> table_ok(*final(m), final(self).table.root_ppn.0, final(alloc).free_frames()),
            r ==> alloc_ok(*final(alloc), *final(m)),
            !r ==> add_clear_stops(*old(self), *old(alloc), *old(m), "trap_context"@, trap_context_area(thread_id)),
    {
        let start = get_user_trap_context_start(thread_id);
        let start_va = VirtualAddr::from(start);
        proof {
            crate::mm::address::lemma_masks(start);
        }
        let end_va = VirtualAddr::from(start_va.0 + 4096);
        proof {
            crate::mm::address::lemma_masks((start_va.0 + 4096) as u64);
        }
        let map_perm = MapPermission { bits: MAP_PERM_R }.union(MapPermission { bits: MAP_PERM_W });
        let map_area = MemoryStaticArea::new(start_va, end_va, map_perm);
        assert(map_area == trap_context_area(thread_id));
        self.add_and_clear(alloc, m, String::from_str("trap_context"), map_area)
    }

    /// Whether no frame of pages `lo..hi` of the area `name` is one of
    /// `tables` (true where there is no such area).
    fn frames_apart_from(&self, name: &String, lo: u64, hi: u64, tables: &Vec<u64>) -> (r: bool)
        ensures
            r ==> areas(*self).contains_key(name@) ==> forall|t: u64|
                #[trigger] tables@.contains(t) ==> !frame_of_range(frame_map_view(areas(*self)[name@].mem_frames), lo, hi, t),
            !r ==> areas(*self).contains_key(name@) && exists|v: u64|
                lo <= v < hi && frame_map_view(areas(*self)[name@].mem_frames).contains_key(v) && tables@.contains(
                    #[trigger] frame_map_view(areas(*self)[name@].mem_frames)[v],
                ),
    {
        let area = match self.sets.get(name) {
            Some(a) => a,
            None => {
                return true;
            },
        };
        let ghost fm = frame_map_view(area.mem_frames);
        let mut v: u64 = lo;
        while v < hi
            invariant
                lo <= v,
                v <= hi || v == lo,
                fm == frame_map_view(area.mem_frames),
                areas(*self).contains_key(name@),
                fm == frame_map_view(areas(*self)[name@].mem_frames),
                forall|w: u64| lo <= w < v && #[trigger] fm.contains_key(w) ==> !tables@.contains(fm[w]),
            decreases hi - v,
        {
            match area.mem_frames.get(v) {
                None => {},
                Some(f) => {
                    if frame_listed(tables, f) {
                        proof {
                            assert(lo <= v < hi && fm.contains_key(v) && tables@.contains(fm[v]));
                        }
                        return false;
                    }
                },
            }
            v = v + 1;
        }
        proof {
            assert forall|t: u64| #[trigger] tables@.contains(t) implies !frame_of_range(fm, lo, hi, t) by {
                if frame_of_range(fm, lo, hi, t) {
                    let w = choose|w: u64| lo <= w < hi && fm.contains_key(w) && #[trigger] fm[w] == t;
                    assert(fm.contains_key(w));
                }
            }
        }
        true
    }

    /// Adds area `a` under `name` as `add_new_user_map` does, then clears
    /// its pages as `clear_map_area` does. False exactly where
    /// `add_clear_stops` says: the area may be added but `check_area`
    /// refuses it, or a frame to clear serves as a table or is missing.
    #[verifier::rlimit(80)]
    #[verifier::spinoff_prover]
    pub(crate) fn add_and_clear(&mut self, alloc: &mut StackFrameAllocator, m: &mut PhysMemory, name: String, a: MemoryStaticArea) -> (r: bool)
        requires
            a.vaddr_end.0 < 0x80_0000_0000,
            alloc_ok(*old(alloc), *old(m)),
            table_ok(*old(m), old(self).table.root_ppn.0, old(alloc).free_frames()),
        ensures
            r ==> user_area_added(*old(self), *final(self), *old(alloc), *final(alloc), *old(m), *final(m), name@, a),
            r ==> table_ok(*final(m), final(self).table.root_ppn.0, final(alloc).free_frames()),
            r ==> alloc_ok(*final(alloc), *final(m)),
            !r ==> add_clear_stops(*old(self), *old(alloc), *old(m), name@, a),
    {
        let can = self.can_map_area(&name, a);
        if can && !self.check_area(alloc, m, &a) {
            return false;
        }
        let ghost s1 = *self;
        let ghost a1 = *alloc;
        let ghost m1 = *m;
        let name2 = name.clone();
        let added = self.add_new_user_map(alloc, m, name, a);
        let ghost s2 = *self;
        let ghost m2 = *m;
        let root = self.table.root_ppn.0;
        let lo = crate::mm::address::round_down_in_4k(a.vaddr_start.0) / 4096;
        let hi = crate::mm::address::round_up_in_4k(a.vaddr_end.0) / 4096;
        proof {
            assert(lo == page_span(a.vaddr_start.0, a.vaddr_end.0).0);
            assert(hi == page_span(a.vaddr_start.0, a.vaddr_end.0).1);
            assert(table_ok(m2, root, alloc.free_frames()));
            assert(alloc_ok(*alloc, m2));
        }
        let ghost mut tables_seq: Seq<u64> = Seq::empty();
        if root != 0 {
            let tables = crate::mm::page_table::table_frames(m, root, Ghost(alloc.free_frames()));
            if !self.frames_apart_from(&name2, lo, hi, &tables) {
                proof {
                    assert(user_map_post(s1, s2, a1, *alloc, m1, m2, name2@, a, added));
                    let fm = frame_map_view(areas(*self)[name2@].mem_frames);
                    let v = choose|v: u64| lo <= v < hi && fm.contains_key(v) && tables@.contains(#[trigger] fm[v]);
                    let q = choose|q: int| 0 <= q < tables@.len() && tables@[q] == fm[v];
                    assert(crate::mm::page_table::is_table(m2, root, tables@[q]));
                    assert(area_frame_is_table(s2, m2, name2@, a));
                }
                return false;
            }
            proof {
                tables_seq = tables@;
            }
        }
        let ok = self.clear_map_area(m, &name2, a.vaddr_start, a.vaddr_end);
        proof {
            if !ok {
                assert(user_map_post(s1, s2, a1, *alloc, m1, m2, name2@, a, added));
                let span = page_span(a.vaddr_start.0, a.vaddr_end.0);
                let fm = frame_map_view(areas(s2)[name2@].mem_frames);
                assert(*self == s2);
                assert(!(areas(s2).contains_key(name2@) && forall|v: u64|
                    span.0 <= v < span.1 ==> #[trigger] fm.contains_key(v) && m2.has_frame(fm[v])));
                assert(!clear_ready(s2, m2, name2@, a));
            }
            if ok {
                assert(user_map_post(s1, s2, a1, *alloc, m1, m2, name2@, a, added));
                if root != 0 {
                    let fm = frame_map_view(areas(*self)[name2@].mem_frames);
                    assert forall|t: u64, w: int|
                        crate::mm::page_table::is_table(m2, root, t) && 0 <= w < 512 implies #[trigger] m.word(t, w) == m2.word(t, w) by {
                        assert(tables_seq.contains(t));
                        assert(!frame_of_range(fm, lo, hi, t));
                        crate::mm::page_table::lemma_table_in_memory(m2, root, alloc.free_frames(), t);
                    }
                    lemma_tables_kept(m2, *m, root, alloc.free_frames());
                }
                assert forall|p: u64| #[trigger] alloc.free_frames().contains(p) implies m.has_frame(p) && p != 0 by {
                    assert(m2.has_frame(p));
                }
            }
        }
        ok
    }

    /// Takes the area named `name` out: its pages are unmapped and its
    /// frames handed back as `unmap_area` does, and the name is forgotten.
    /// False, with nothing changed, when there is no such area or the
    /// table has no root; false too where it cannot go on: an
    /// area that could not have been mapped, or `unmap_area` stops.
    #[verifier::rlimit(60)]
    #[verifier::spinoff_prover]
    pub fn remove_user_map(&mut self, alloc: &mut StackFrameAllocator, m: &mut PhysMemory, name: &String) -> (r: bool)
        requires
            alloc_ok(*old(alloc), *old(m)),
            table_ok(*old(m), old(self).table.root_ppn.0, old(alloc).free_frames()),
        ensures
            user_unmap_post(*old(self), *final(self), *old(alloc), *final(alloc), *old(m), *final(m), name@, r),
    {
        if self.table.root_ppn.0 == 0 {
            return false;
        }
        let found = match self.sets.get(name) {
            Some(a) => mappable_exec(&a.area),
            None => {
                return false;
            },
        };
        if !found {
            return false;
        }
        let mut area = self.sets.remove(name).unwrap();
        let tables = table_frames(m, self.table.root_ppn.0, Ghost(alloc.free_frames()));
        area.unmap_area(&self.table, alloc, m, &tables)
    }

    /// Takes every area out as `remove_user_map` does. True when each
    /// removal succeeded; then no area is left and no slot of a former
    /// area maps anything.
    #[verifier::rlimit(60)]
    #[verifier::spinoff_prover]
    pub fn remove_all_map(&mut self, alloc: &mut StackFrameAllocator, m: &mut PhysMemory) -> (r: bool)
        requires
            alloc_ok(*old(alloc), *old(m)),
            table_ok(*old(m), old(self).table.root_ppn.0, old(alloc).free_frames()),
        ensures
            final(self).table == old(self).table,
            alloc_ok(*final(alloc), *final(m)),
            table_ok(*final(m), final(self).table.root_ppn.0, final(alloc).free_frames()),
            old(alloc).free_frames().subset_of(final(alloc).free_frames()),
            r ==> areas(*final(self)).dom() == Set::<Seq<char>>::empty(),
            r ==> forall|n: Seq<char>| #[trigger] areas(*old(self)).contains_key(n) ==> area_unmapped(
                areas(*old(self))[n].area,
                *final(m),
                final(self).table.root_ppn.0,
            ),
    {
        let keys = self.sets.keys();
        let ghost s0 = areas(*self);
        let ghost m0 = *m;
        let ghost a0 = *alloc;
        let root = self.table.root_ppn.0;
        let mut ok: bool = true;
        let mut i: usize = 0;
        while i < keys.len()
            invariant
                i <= keys@.len(),
                self.table == old(self).table,
                root == self.table.root_ppn.0,
                forall|j: int| 0 <= j < keys@.len() ==> s0.contains_key(#[trigger] keys@[j]@),
                forall|k: Seq<char>| #[trigger] s0.contains_key(k) ==> exists|j: int| 0 <= j < keys@.len() && keys@[j]@ == k,
                forall|j: int, l: int| 0 <= j < l < keys@.len() ==> keys@[j]@ != keys@[l]@,
                alloc_ok(*alloc, *m),
                table_ok(*m, root, alloc.free_frames()),
                a0.free_frames().subset_of(alloc.free_frames()),
                forall|f: u64| #[trigger] crate::mm::page_table::is_table(*m, root, f) == crate::mm::page_table::is_table(m0, root, f),
                forall|n: Seq<char>| #[trigger] areas(*self).contains_key(n) ==> s0.contains_key(n) && areas(*self)[n] == s0[n],
                forall|j: int| i <= j < keys@.len() ==> areas(*self).contains_key(#[trigger] keys@[j]@),
                ok ==> forall|j: int| 0 <= j < i ==> !areas(*self).contains_key(#[trigger] keys@[j]@),
                ok ==> forall|j: int| 0 <= j < i ==> area_unmapped(s0[#[trigger] keys@[j]@].area, *m, root),
            decreases keys@.len() - i,
        {
            let ghost m_before = *m;
            let ghost s_before = areas(*self);
            proof {
                assert(areas(*self).contains_key(keys@[i as int]@));
            }
            let done = self.remove_user_map(alloc, m, &keys[i]);
            proof {
                let n = keys@[i as int]@;
                if ok && done {
                    assert forall|j: int| 0 <= j < i + 1 implies area_unmapped(s0[#[trigger] keys@[j]@].area, *m, root) by {
                        if j < i {
                            let a = s0[keys@[j]@].area;
                            let rg = area_ranges(a);
                            assert forall|k: int| 0 <= k < rg.1 implies mapped(*m, root, #[trigger] l3_slot(rg.0, k)).is_none() by {
                                assert(mapped(m_before, root, l3_slot(rg.0, k)).is_none());
                                if outside_area(l3_slot(rg.0, k), s_before[n].area) {
                                    assert(mapped(*m, root, l3_slot(rg.0, k)) == mapped(m_before, root, l3_slot(rg.0, k)));
                                } else {
                                    lemma_area_ranges(s_before[n].area);
                                    lemma_unmapped_slot(s_before[n].area, *m, root, l3_slot(rg.0, k));
                                }
                            }
                            assert forall|k: int| 0 <= k < rg.3 implies mapped(*m, root, #[trigger] l3_slot(rg.2, k)).is_none() by {
                                assert(mapped(m_before, root, l3_slot(rg.2, k)).is_none());
                                if outside_area(l3_slot(rg.2, k), s_before[n].area) {
                                    assert(mapped(*m, root, l3_slot(rg.2, k)) == mapped(m_before, root, l3_slot(rg.2, k)));
                                } else {
                                    lemma_area_ranges(s_before[n].area);
                                    lemma_unmapped_slot(s_before[n].area, *m, root, l3_slot(rg.2, k));
                                }
                            }
                        }
                    }
                    assert forall|j: int| 0 <= j < i + 1 implies !areas(*self).contains_key(#[trigger] keys@[j]@) by {
                        if j < i {
                            assert(keys@[j]@ != n);
                        }
                    }
                }
                assert forall|j: int| i + 1 <= j < keys@.len() implies areas(*self).contains_key(#[trigger] keys@[j]@) by {
                    assert(keys@[j]@ != n);
                }
            }
            if !done {
                ok = false;
            }
            i = i + 1;
        }
        proof {
            if ok {
                assert forall|n: Seq<char>| !(#[trigger] areas(*self).contains_key(n)) by {
                    if areas(*self).contains_key(n) {
                        let j = choose|j: int| 0 <= j < keys@.len() && keys@[j]@ == n;
                    }
                }
                assert(areas(*self).dom() =~= Set::<Seq<char>>::empty());
                assert forall|n: Seq<char>| #[trigger] s0.contains_key(n) implies area_unmapped(s0[n].area, *m, root) by {
                    let j = choose|j: int| 0 <= j < keys@.len() && keys@[j]@ == n;
                    assert(area_unmapped(s0[keys@[j]@].area, *m, root));
                }
            }
        }
        ok
    }
}

/// Frame `q` is written by one of the first `n` copies of `plan`.
pub open spec fn written(plan: Seq<(u64, u64)>, n: int, q: u64) -> bool {
    exists|k: int| 0 <= k < n && #[trigger] plan[k].1 == q
}

/// The copies of `plan` (source frame, frame written) can be made: each
/// frame is part of memory, no frame is written twice, and no frame
/// written is read by a copy or listed in `keep`.
pub open spec fn plan_ok(m: PhysMemory, plan: Seq<(u64, u64)>, keep: Seq<u64>) -> bool {
    &&& forall|j: int| 0 <= j < plan.len() ==> m.has_frame(#[trigger] plan[j].0) && m.has_frame(plan[j].1)
    &&& forall|j: int, k: int| 0 <= j < plan.len() && 0 <= k < plan.len() && j != k ==> #[trigger] plan[j].1 != #[trigger] plan[k].1
    &&& forall|j: int, k: int| 0 <= j < plan.len() && 0 <= k < plan.len() ==> #[trigger] plan[j].1 != #[trigger] plan[k].0
    &&& forall|j: int, t: int| 0 <= j < plan.len() && 0 <= t < keep.len() ==> #[trigger] plan[j].1 != #[trigger] keep[t]
}

/// Whether the copies of `plan` can be made, as `plan_ok` says.
#[verifier::spinoff_prover]
#[verifier::rlimit(40)]
fn plan_ok_exec(m: &PhysMemory, plan: &Vec<(u64, u64)>, keep: &Vec<u64>) -> (r: bool)
    ensures
        r == plan_ok(*m, plan@, keep@),
{
    let n = plan.len();
    let mut j: usize = 0;
    while j < n
        invariant
            n == plan@.len(),
            j <= n,
            forall|a: int| 0 <= a < j ==> m.has_frame(#[trigger] plan@[a].0) && m.has_frame(plan@[a].1),
            forall|a: int, k: int| 0 <= a < j && 0 <= k < n && a != k ==> #[trigger] plan@[a].1 != #[trigger] plan@[k].1,
            forall|a: int, k: int| 0 <= a < j && 0 <= k < n ==> #[trigger] plan@[a].1 != #[trigger] plan@[k].0,
            forall|a: int, t: int| 0 <= a < j && 0 <= t < keep@.len() ==> #[trigger] plan@[a].1 != #[trigger] keep@[t],
        decreases n - j,
    {
        let (src, dst) = plan[j];
        if !(m.contains_frame(src) && m.contains_frame(dst)) {
            proof {
                assert(!(m.has_frame(plan@[j as int].0) && m.has_frame(plan@[j as int].1)));
            }
            return false;
        }
        let mut k: usize = 0;
        while k < n
            invariant
                n == plan@.len(),
                j < n,
                k <= n,
                dst == plan@[j as int].1,
                forall|b: int| 0 <= b < k && b != j ==> plan@[j as int].1 != #[trigger] plan@[b].1,
                forall|b: int| 0 <= b < k ==> plan@[j as int].1 != #[trigger] plan@[b].0,
                forall|a: int| 0 <= a < j ==> m.has_frame(#[trigger] plan@[a].0) && m.has_frame(plan@[a].1),
                forall|a: int, c: int| 0 <= a < j && 0 <= c < n && a != c ==> #[trigger] plan@[a].1 != #[trigger] plan@[c].1,
                forall|a: int, c: int| 0 <= a < j && 0 <= c < n ==> #[trigger] plan@[a].1 != #[trigger] plan@[c].0,
                forall|a: int, c: int| 0 <= a < j && 0 <= c < keep@.len() ==> #[trigger] plan@[a].1 != #[trigger] keep@[c],
                m.has_frame(plan@[j as int].0) && m.has_frame(plan@[j as int].1),
            decreases n - k,
        {
            if (k != j && plan[k].1 == dst) || plan[k].0 == dst {
                proof {
                    if k != j && plan@[k as int].1 == dst {
                        assert(plan@[j as int].1 == plan@[k as int].1);
                    } else {
                        assert(plan@[j as int].1 == plan@[k as int].0);
                    }
                }
                return false;
            }
            k = k + 1;
        }
        let mut t: usize = 0;
        while t < keep.len()
            invariant
                n == plan@.len(),
                j < n,
                t <= keep@.len(),
                dst == plan@[j as int].1,
                forall|b: int| 0 <= b < t ==> plan@[j as int].1 != #[trigger] keep@[b],
                forall|b: int| 0 <= b < n && b != j ==> plan@[j as int].1 != #[trigger] plan@[b].1,
                forall|b: int| 0 <= b < n ==> plan@[j as int].1 != #[trigger] plan@[b].0,
                forall|a: int| 0 <= a < j ==> m.has_frame(#[trigger] plan@[a].0) && m.has_frame(plan@[a].1),
                forall|a: int, k: int| 0 <= a < j && 0 <= k < n && a != k ==> #[trigger] plan@[a].1 != #[trigger] plan@[k].1,
                forall|a: int, k: int| 0 <= a < j && 0 <= k < n ==> #[trigger] plan@[a].1 != #[trigger] plan@[k].0,
                forall|a: int, k: int| 0 <= a < j && 0 <= k < keep@.len() ==> #[trigger] plan@[a].1 != #[trigger] keep@[k],
                m.has_frame(plan@[j as int].0) && m.has_frame(plan@[j as int].1),
            decreases keep@.len() - t,
        {
            if keep[t] == dst {
                proof {
                    assert(plan@[j as int].1 == keep@[t as int]);
                }
                return false;
            }
            t = t + 1;
        }
        proof {
            assert forall|a: int| 0 <= a < j + 1 implies m.has_frame(#[trigger] plan@[a].0) && m.has_frame(plan@[a].1) by {
                if a == j {
                    assert(m.has_frame(plan@[j as int].0) && m.has_frame(plan@[j as int].1));
                }
            }
            assert forall|a: int, k: int| 0 <= a < j + 1 && 0 <= k < n && a != k implies #[trigger] plan@[a].1 != #[trigger] plan@[k].1 by {
                if a == j {
                } else if k == j {
                    assert(plan@[k].1 != plan@[a].1);
                }
            }
        }
        j = j + 1;
    }
    true
}

/// Makes the copies of `plan`: each frame written gets the 512 words of
/// its source frame, after checking `plan_ok` (false, with nothing
/// changed, where it fails). Frames not written keep their words.
#[verifier::spinoff_prover]
#[verifier::rlimit(40)]
pub fn copy_frames(m: &mut PhysMemory, plan: &Vec<(u64, u64)>, keep: &Vec<u64>) -> (r: bool)
    ensures
        r == plan_ok(*old(m), plan@, keep@),
        !r ==> *final(m) == *old(m),
        final(m).base_ppn == old(m).base_ppn,
        final(m).words@.len() == old(m).words@.len(),
        r ==> forall|j: int, w: int|
            0 <= j < plan@.len() && 0 <= w < 512 ==> #[trigger] final(m).word(plan@[j].1, w) == old(m).word(plan@[j].0, w),
        r ==> forall|q: u64, w: int|
            #![trigger final(m).word(q, w)]
            old(m).has_frame(q) && 0 <= w < 512 && !written(plan@, plan@.len() as int, q) ==> final(m).word(q, w) == old(m).word(q, w),
{
    if !plan_ok_exec(m, plan, keep) {
        return false;
    }
    let ghost m0 = *m;
    let n = plan.len();
    let mut j: usize = 0;
    while j < n
        invariant
            n == plan@.len(),
            j <= n,
            plan_ok(m0, plan@, keep@),
            m.base_ppn == m0.base_ppn,
            m.words@.len() == m0.words@.len(),
            forall|a: int, w: int| 0 <= a < j && 0 <= w < 512 ==> #[trigger] m.word(plan@[a].1, w) == m0.word(plan@[a].0, w),
            forall|q: u64, w: int|
                #![trigger m.word(q, w)]
                m0.has_frame(q) && 0 <= w < 512 && !written(plan@, j as int, q) ==> m.word(q, w) == m0.word(q, w),
        decreases n - j,
    {
        let (src, dst) = plan[j];
        proof {
            assert(m0.has_frame(plan@[j as int].0) && m0.has_frame(plan@[j as int].1));
            assert(!written(plan@, j as int, src)) by {
                if written(plan@, j as int, src) {
                    let k = choose|k: int| 0 <= k < j && #[trigger] plan@[k].1 == src;
                    assert(plan@[k].1 != plan@[j as int].0);
                }
            }
            assert(!written(plan@, j as int, dst)) by {
                if written(plan@, j as int, dst) {
                    let k = choose|k: int| 0 <= k < j && #[trigger] plan@[k].1 == dst;
                    assert(plan@[k].1 != plan@[j as int].1);
                }
            }
            assert(src != dst) by {
                assert(plan@[j as int].1 != plan@[j as int].0);
            }
        }
        let ghost mj = *m;
        let mut i: usize = 0;
        while i < 512
            invariant
                n == plan@.len(),
                j < n,
                i <= 512,
                src == plan@[j as int].0,
                dst == plan@[j as int].1,
                src != dst,
                m0.has_frame(src),
                m0.has_frame(dst),
                !written(plan@, j as int, src),
                !written(plan@, j as int, dst),
                plan_ok(m0, plan@, keep@),
                m.base_ppn == m0.base_ppn,
                m.words@.len() == m0.words@.len(),
                forall|a: int, w: int| 0 <= a < j && 0 <= w < 512 ==> #[trigger] m.word(plan@[a].1, w) == m0.word(plan@[a].0, w),
                forall|q: u64, w: int|
                    #![trigger m.word(q, w)]
                    m0.has_frame(q) && 0 <= w < 512 && !written(plan@, j as int, q) && q != dst ==> m.word(q, w) == m0.word(q, w),
                forall|w: int| 0 <= w < i ==> #[trigger] m.word(dst, w) == m0.word(src, w),
            decreases 512 - i,
        {
            let v = m.read_word(src, i);
            let ghost mb = *m;
            m.write_word(dst, i, v);
            proof {
                crate::mm::page_table::lemma_write_word_effect(mb, *m, dst, i as int, v);
                assert forall|a: int, w: int| 0 <= a < j && 0 <= w < 512 implies #[trigger] m.word(plan@[a].1, w) == m0.word(plan@[a].0, w) by {
                    assert(plan@[a].1 != plan@[j as int].1);
                    assert(mb.word(plan@[a].1, w) == m0.word(plan@[a].0, w));
                }
            }
            i = i + 1;
        }
        proof {
            assert forall|q: u64, w: int|
                #![trigger m.word(q, w)]
                m0.has_frame(q) && 0 <= w < 512 && !written(plan@, j + 1, q) implies m.word(q, w) == m0.word(q, w) by {
                assert(!written(plan@, j as int, q)) by {
                    if written(plan@, j as int, q) {
                        let k = choose|k: int| 0 <= k < j && #[trigger] plan@[k].1 == q;
                        assert(written(plan@, j + 1, q));
                    }
                }
                assert(q != dst) by {
                    if q == dst {
                        assert(plan@[j as int].1 == q);
                        assert(written(plan@, j + 1, q));
                    }
                }
            }
        }
        j = j + 1;
    }
    true
}

/// `keys` lists the names of `names`, each once.
pub open spec fn lists_names(keys: Seq<String>, names: Map<Seq<char>, FrameBasedArea>) -> bool {
    &&& forall|j: int| 0 <= j < keys.len() ==> names.contains_key(#[trigger] keys[j]@)
    &&& forall|n: Seq<char>| #[trigger] names.contains_key(n) ==> exists|j: int| 0 <= j < keys.len() && keys[j]@ == n
    &&& forall|j: int, l: int| 0 <= j < l < keys.len() ==> keys[j]@ != keys[l]@
}

/// Every page of the area named `n` of `p` has a frame in `p` and in `c`,
/// and `plan` copies the one of `p` over the one of `c`.
pub open spec fn area_covered(p: UserMemorySets, c: UserMemorySets, n: Seq<char>, plan: Seq<(u64, u64)>) -> bool {
    let a = areas(p)[n];
    let fp = frame_map_view(a.mem_frames);
    let fc = frame_map_view(areas(c)[n].mem_frames);
    let span = page_span(a.area.vaddr_start.0, a.area.vaddr_end.0);
    forall|v: u64| span.0 <= v < span.1 ==> #[trigger] fp.contains_key(v) && fc.contains_key(v) && plan_has(plan, fp[v], fc[v])
}

/// One of the copies of `plan` copies frame `src` over frame `dst`.
pub open spec fn plan_has(plan: Seq<(u64, u64)>, src: u64, dst: u64) -> bool {
    exists|j: int| 0 <= j < plan.len() && #[trigger] plan[j].0 == src && plan[j].1 == dst
}

/// A copy pushed onto a plan keeps the copies already there, and is one.
proof fn lemma_plan_has_push(plan: Seq<(u64, u64)>, x: (u64, u64))
    ensures
        forall|s: u64, d: u64| plan_has(plan, s, d) ==> #[trigger] plan_has(plan.push(x), s, d),
        plan_has(plan.push(x), x.0, x.1),
{
    assert forall|s: u64, d: u64| plan_has(plan, s, d) implies #[trigger] plan_has(plan.push(x), s, d) by {
        let j = choose|j: int| 0 <= j < plan.len() && #[trigger] plan[j].0 == s && plan[j].1 == d;
        assert(plan.push(x)[j].0 == s);
    }
    assert(plan.push(x)[plan.len() as int].0 == x.0);
}

/// The area named `n` of `p` is an area of `c` over the same addresses,
/// each of its pages has a frame in both, and in memory `m` the two
/// frames hold the same words.
pub open spec fn forked_area(p: UserMemorySets, c: UserMemorySets, m: PhysMemory, n: Seq<char>) -> bool {
    let a = areas(p)[n];
    let fp = frame_map_view(a.mem_frames);
    let fc = frame_map_view(areas(c)[n].mem_frames);
    let span = page_span(a.area.vaddr_start.0, a.area.vaddr_end.0);
    &&& areas(c).contains_key(n)
    &&& areas(c)[n].area == a.area
    &&& forall|v: u64|
        span.0 <= v < span.1 ==> #[trigger] fp.contains_key(v) && fc.contains_key(v) && forall|w: int|
            0 <= w < 512 ==> #[trigger] m.word(fc[v], w) == m.word(fp[v], w)
}

/// What `fork_user_memory` leaves in `c` and memory `m` when it succeeds:
/// every area of `p` but the trap code is copied as `forked_area` says;
/// where `p` has the trap code, so has `c`, mapped at the top page to the
/// frame at `strap_addr`.
pub open spec fn forked(p: UserMemorySets, c: UserMemorySets, m: PhysMemory, strap_addr: u64) -> bool {
    &&& forall|n: Seq<char>| #[trigger] areas(p).contains_key(n) && n != "trap_text"@ ==> forked_area(p, c, m, n)
    &&& areas(p).contains_key("trap_text"@) ==> areas(c).contains_key("trap_text"@) && mapped(
        m,
        c.table.root_ppn.0,
        0x7FF_FFFF,
    ) == Some((strap_addr / 4096) as u64)
}

/// Once the copies of a plan that covers the area named `n` are made, the
/// area is copied.
#[verifier::spinoff_prover]
proof fn lemma_forked_area(
    p: UserMemorySets,
    c: UserMemorySets,
    m2: PhysMemory,
    m: PhysMemory,
    plan: Seq<(u64, u64)>,
    keep: Seq<u64>,
    n: Seq<char>,
)
    requires
        areas(c).contains_key(n),
        areas(c)[n].area == areas(p)[n].area,
        area_covered(p, c, n, plan),
        plan_ok(m2, plan, keep),
        forall|j: int, w: int| 0 <= j < plan.len() && 0 <= w < 512 ==> #[trigger] m.word(plan[j].1, w) == m2.word(plan[j].0, w),
        forall|q: u64, w: int|
            #![trigger m.word(q, w)]
            m2.has_frame(q) && 0 <= w < 512 && !written(plan, plan.len() as int, q) ==> m.word(q, w) == m2.word(q, w),
    ensures
        forked_area(p, c, m, n),
{
    let a = areas(p)[n];
    let fp = frame_map_view(a.mem_frames);
    let fc = frame_map_view(areas(c)[n].mem_frames);
    let span = page_span(a.area.vaddr_start.0, a.area.vaddr_end.0);
    assert forall|v: u64| span.0 <= v < span.1 implies #[trigger] fp.contains_key(v) && fc.contains_key(v) && forall|w: int|
        0 <= w < 512 ==> #[trigger] m.word(fc[v], w) == m.word(fp[v], w) by {
        assert(fp.contains_key(v));
        assert(fc.contains_key(v));
        assert(plan_has(plan, fp[v], fc[v]));
        let j = choose|j: int| 0 <= j < plan.len() && #[trigger] plan[j].0 == fp[v] && plan[j].1 == fc[v];
        assert forall|w: int| 0 <= w < 512 implies #[trigger] m.word(fc[v], w) == m.word(fp[v], w) by {
            assert(m.word(plan[j].1, w) == m2.word(plan[j].0, w));
            assert(m2.has_frame(plan[j].0));
            assert(!written(plan, plan.len() as int, fp[v])) by {
                if written(plan, plan.len() as int, fp[v]) {
                    let k2 = choose|k2: int| 0 <= k2 < plan.len() && #[trigger] plan[k2].1 == fp[v];
                    assert(plan[k2].1 != plan[j].0);
                }
            }
        }
    }
}

/// A copy pushed onto a plan keeps the areas it covered covered.
proof fn lemma_covered_push(p: UserMemorySets, c: UserMemorySets, n: Seq<char>, plan: Seq<(u64, u64)>, x: (u64, u64))
    requires
        area_covered(p, c, n, plan),
    ensures
        area_covered(p, c, n, plan.push(x)),
{
    lemma_plan_has_push(plan, x);
}

/// Where the frames serving as tables keep their words, the table stays
/// well formed and every page maps as before.
proof fn lemma_tables_kept(a: PhysMemory, b: PhysMemory, root: u64, free: Set<u64>)
    requires
        crate::mm::page_table::pt_wf(a, root, free),
        b.base_ppn == a.base_ppn,
        b.words@.len() == a.words@.len(),
        forall|t: u64, w: int|
            crate::mm::page_table::is_table(a, root, t) && 0 <= w < 512 ==> #[trigger] b.word(t, w) == a.word(t, w),
    ensures
        crate::mm::page_table::pt_wf(b, root, free),
        forall|v: u64| #[trigger] mapped(b, root, v) == mapped(a, root, v),
{
    assert forall|i: int| #![trigger crate::mm::page_table::e1(b, root, i)] crate::mm::page_table::ix(i) implies crate::mm::page_table::e1(
        b,
        root,
        i,
    ) == crate::mm::page_table::e1(a, root, i) by {
        assert(crate::mm::page_table::is_table(a, root, root));
        assert(b.word(root, i) == a.word(root, i));
    }
    assert forall|i: int, j: int|
        #![trigger crate::mm::page_table::e2(b, root, i, j)]
        crate::mm::page_table::ix(i) && crate::mm::page_table::ix(j) && crate::mm::page_table::v1(
            a,
            root,
            i,
        ) implies crate::mm::page_table::e2(b, root, i, j) == crate::mm::page_table::e2(a, root, i, j) by {
        let t2 = crate::mm::page_table::t2_of(a, root, i);
        assert(crate::mm::page_table::is_table(a, root, t2));
        assert(crate::mm::page_table::e1(b, root, i) == crate::mm::page_table::e1(a, root, i)) by {
            assert(crate::mm::page_table::is_table(a, root, root));
            assert(b.word(root, i) == a.word(root, i));
        }
        assert(b.word(t2, j) == a.word(t2, j));
    }
    assert(crate::mm::page_table::tables_agree(a, b, root));
    crate::mm::page_table::lemma_tables_agree(a, b, root, free, free);
    assert forall|v: u64| #[trigger] mapped(b, root, v) == mapped(a, root, v) by {
        lemma_idx_bounds(v);
        if let Some(t3) = crate::mm::page_table::l3_table(a, root, v) {
            let i2 = idx(v, 2);
            let i1 = idx(v, 1);
            assert(crate::mm::page_table::v2(a, root, i2, i1));
            assert(crate::mm::page_table::t3_of(a, root, i2, i1) == t3);
            assert(crate::mm::page_table::is_table(a, root, t3));
            assert(b.word(t3, idx(v, 0)) == a.word(t3, idx(v, 0)));
        }
    }
}

impl UserMemorySets {
    /// Whether the trap page can be mapped here as `set_trap_text_page`
    /// needs: it maps nothing yet and enough frames are free for its
    /// tables.
    fn trap_page_free(&self, alloc: &StackFrameAllocator, m: &PhysMemory) -> (r: bool)
        requires
            alloc.cur_ppn <= alloc.last_ppn,
            table_ok(*m, self.table.root_ppn.0, alloc.free_frames()),
        ensures
            r ==> alloc.free_count() >= frames_needed(*m, self.table.root_ppn.0, 0x7FF_FFFF) && mapped(
                *m,
                self.table.root_ppn.0,
                0x7FF_FFFF,
            ).is_none(),
    {
        if self.table.root_ppn.0 != 0 {
            proof {
                crate::mm::page_table::lemma_wf_path(*m, self.table.root_ppn.0, alloc.free_frames(), 0x7FF_FFFF);
            }
            if crate::mm::page_table::do_table_walk_in_4k(m, self.table.root_ppn, VirtPageNum(0x7FF_FFFF)).is_some() {
                return false;
            }
        }
        let need = self.table.frames_needed_exec(m, Ghost(alloc.free_frames()), VirtPageNum(0x7FF_FFFF));
        alloc.has_free_frames(need)
    }

    /// Adds to `c`, for each area of this address space named in `keys`
    /// but the trap code, an area over the same addresses with fresh
    /// frames, as `add_new_user_map` does. False where one cannot be added
    /// here. Areas `c` had stay, and so does every page it mapped.
    #[verifier::rlimit(80)]
    #[verifier::spinoff_prover]
    fn fork_areas(&self, alloc: &mut StackFrameAllocator, m: &mut PhysMemory, c: &mut UserMemorySets, keys: &Vec<String>) -> (r: bool)
        requires
            alloc_ok(*old(alloc), *old(m)),
            table_ok(*old(m), old(c).table.root_ppn.0, old(alloc).free_frames()),
            lists_names(keys@, areas(*self)),
        ensures
            alloc_ok(*final(alloc), *final(m)),
            table_ok(*final(m), final(c).table.root_ppn.0, final(alloc).free_frames()),
            old(c).table.root_ppn.0 != 0 ==> final(c).table.root_ppn == old(c).table.root_ppn,
            forall|n: Seq<char>| #[trigger] areas(*old(c)).contains_key(n) ==> areas(*final(c)).contains_key(n)
                && areas(*final(c))[n] == areas(*old(c))[n],
            forall|v: u64|
                old(c).table.root_ppn.0 != 0 && #[trigger] mapped(*old(m), old(c).table.root_ppn.0, v) is Some ==> mapped(
                    *final(m),
                    final(c).table.root_ppn.0,
                    v,
                ) == mapped(*old(m), old(c).table.root_ppn.0, v),
            r ==> forall|n: Seq<char>|
                #[trigger] areas(*self).contains_key(n) && n != "trap_text"@ ==> areas(*final(c)).contains_key(n)
                    && areas(*final(c))[n].area == areas(*self)[n].area,
    {
        let trap = String::from_str("trap_text");
        let ghost c0 = *c;
        let ghost m0 = *m;
        let mut i: usize = 0;
        while i < keys.len()
            invariant
                i <= keys@.len(),
                trap@ == "trap_text"@,
                c0 == *old(c),
                m0 == *old(m),
                lists_names(keys@, areas(*self)),
                alloc_ok(*alloc, *m),
                table_ok(*m, c.table.root_ppn.0, alloc.free_frames()),
                c0.table.root_ppn.0 != 0 ==> c.table.root_ppn == c0.table.root_ppn,
                forall|n: Seq<char>| #[trigger] areas(c0).contains_key(n) ==> areas(*c).contains_key(n) && areas(*c)[n]
                    == areas(c0)[n],
                forall|v: u64|
                    c0.table.root_ppn.0 != 0 && #[trigger] mapped(m0, c0.table.root_ppn.0, v) is Some ==> mapped(
                        *m,
                        c.table.root_ppn.0,
                        v,
                    ) == mapped(m0, c0.table.root_ppn.0, v),
                forall|j: int|
                    0 <= j < i && keys@[j]@ != "trap_text"@ ==> areas(*c).contains_key(#[trigger] keys@[j]@) && areas(
                        *c,
                    )[keys@[j]@].area == areas(*self)[keys@[j]@].area,
            decreases keys@.len() - i,
        {
            if !(keys[i] == trap) {
                let a = self.sets.get(&keys[i]).unwrap().area;
                if !c.can_map_area(&keys[i], a) || !c.check_area(alloc, m, &a) {
                    return false;
                }
                let ghost c1 = *c;
                let ghost m1 = *m;
                let ghost a1 = *alloc;
                let ghost g = area_ranges(a);
                proof {
                    lemma_area_ranges(a);
                }
                let added = c.add_new_user_map(alloc, m, keys[i].clone(), a);
                proof {
                    assert(added);
                    let n = keys@[i as int]@;
                    assert forall|v: u64|
                        c0.table.root_ppn.0 != 0 && #[trigger] mapped(m0, c0.table.root_ppn.0, v) is Some implies mapped(
                        *m,
                        c.table.root_ppn.0,
                        v,
                    ) == mapped(m0, c0.table.root_ppn.0, v) by {
                        lemma_outside_free_slots(m1, c1.table.root_ppn.0, v, g.0, g.1);
                        lemma_outside_free_slots(m1, c1.table.root_ppn.0, v, g.2, g.3);
                    }
                    assert forall|j: int|
                        0 <= j < i + 1 && keys@[j]@ != "trap_text"@ implies areas(*c).contains_key(#[trigger] keys@[j]@)
                            && areas(*c)[keys@[j]@].area == areas(*self)[keys@[j]@].area by {
                        if j < i {
                            assert(keys@[j]@ != n);
                        }
                    }
                    assert forall|k: Seq<char>| #[trigger] areas(c0).contains_key(k) implies areas(*c).contains_key(k)
                        && areas(*c)[k] == areas(c0)[k] by {
                        assert(areas(c1).contains_key(k));
                        assert(k != n);
                    }
                }
            }
            i = i + 1;
        }
        proof {
            assert forall|n: Seq<char>|
                #[trigger] areas(*self).contains_key(n) && n != "trap_text"@ implies areas(*c).contains_key(n)
                    && areas(*c)[n].area == areas(*self)[n].area by {
                let j = choose|j: int| 0 <= j < keys@.len() && keys@[j]@ == n;
                assert(areas(*c).contains_key(keys@[j]@));
            }
        }
        true
    }
}

impl UserMemorySets {
    /// The copies that forking makes: for each area named in `keys` but
    /// the trap code, each page's frame here over its frame in `c`. `None`
    /// where a page has no frame in either.
    #[verifier::rlimit(80)]
    #[verifier::spinoff_prover]
    fn fork_plan(&self, c: &UserMemorySets, keys: &Vec<String>) -> (r: Option<Vec<(u64, u64)>>)
        requires
            lists_names(keys@, areas(*self)),
        ensures
            r is Some ==> forall|n: Seq<char>|
                #[trigger] areas(*self).contains_key(n) && n != "trap_text"@ ==> areas(*c).contains_key(n) && area_covered(
                    *self,
                    *c,
                    n,
                    r.unwrap()@,
                ),
    {
        let trap = String::from_str("trap_text");
        let mut plan: Vec<(u64, u64)> = Vec::new();
        let mut i: usize = 0;
        while i < keys.len()
            invariant
                i <= keys@.len(),
                trap@ == "trap_text"@,
                lists_names(keys@, areas(*self)),
                forall|j: int|
                    0 <= j < i && keys@[j]@ != "trap_text"@ ==> areas(*c).contains_key(#[trigger] keys@[j]@) && area_covered(
                        *self,
                        *c,
                        keys@[j]@,
                        plan@,
                    ),
            decreases keys@.len() - i,
        {
            if !(keys[i] == trap) {
                let ghost n = keys@[i as int]@;
                let pa = match self.sets.get(&keys[i]) {
                    Some(a) => a,
                    None => {
                        return None;
                    },
                };
                let ca = match c.sets.get(&keys[i]) {
                    Some(a) => a,
                    None => {
                        return None;
                    },
                };
                if pa.area.vaddr_end.0 >= 0x80_0000_0000 {
                    return None;
                }
                let sv = crate::mm::address::round_down_in_4k(pa.area.vaddr_start.0) / 4096;
                let ev = crate::mm::address::round_up_in_4k(pa.area.vaddr_end.0) / 4096;
                let ghost fp = frame_map_view(pa.mem_frames);
                let ghost fc = frame_map_view(ca.mem_frames);
                proof {
                    assert(sv == page_span(pa.area.vaddr_start.0, pa.area.vaddr_end.0).0);
                    assert(ev == page_span(pa.area.vaddr_start.0, pa.area.vaddr_end.0).1);
                }
                let mut v: u64 = sv;
                while v < ev
                    invariant
                        i < keys@.len(),
                        n == keys@[i as int]@,
                        n != "trap_text"@,
                        areas(*self).contains_key(n),
                        areas(*c).contains_key(n),
                        *pa == areas(*self)[n],
                        *ca == areas(*c)[n],
                        fp == frame_map_view(pa.mem_frames),
                        fc == frame_map_view(ca.mem_frames),
                        sv <= v,
                        v <= ev || v == sv,
                        sv == page_span(pa.area.vaddr_start.0, pa.area.vaddr_end.0).0,
                        ev == page_span(pa.area.vaddr_start.0, pa.area.vaddr_end.0).1,
                        forall|j: int|
                            0 <= j < i && keys@[j]@ != "trap_text"@ ==> areas(*c).contains_key(#[trigger] keys@[j]@)
                                && area_covered(*self, *c, keys@[j]@, plan@),
                        forall|w: u64|
                            sv <= w < v ==> #[trigger] fp.contains_key(w) && fc.contains_key(w) && plan_has(plan@, fp[w], fc[w]),
                    decreases ev - v,
                {
                    let src = match pa.mem_frames.get(v) {
                        Some(f) => f,
                        None => {
                            return None;
                        },
                    };
                    let dst = match ca.mem_frames.get(v) {
                        Some(f) => f,
                        None => {
                            return None;
                        },
                    };
                    let ghost p0 = plan@;
                    plan.push((src, dst));
                    proof {
                        lemma_plan_has_push(p0, (src, dst));
                        assert forall|j: int|
                            0 <= j < i && keys@[j]@ != "trap_text"@ implies areas(*c).contains_key(#[trigger] keys@[j]@)
                                && area_covered(*self, *c, keys@[j]@, plan@) by {
                            lemma_covered_push(*self, *c, keys@[j]@, p0, (src, dst));
                        }
                        assert forall|w: u64| sv <= w < v + 1 implies #[trigger] fp.contains_key(w) && fc.contains_key(w)
                            && plan_has(plan@, fp[w], fc[w]) by {
                            if w < v {
                                assert(fp.contains_key(w));
                                assert(plan_has(p0, fp[w], fc[w]));
                            }
                        }
                    }
                    v = v + 1;
                }
                proof {
                    assert(area_covered(*self, *c, n, plan@));
                }
            }
            i = i + 1;
        }
        Some(plan)
    }

    /// Makes `new_set` a copy of this address space, as forking a process
    /// does: the trap code at `strap_addr` is mapped at the top page where
    /// this space has it, every other area gets an area over the same
    /// addresses with fresh frames, and each fresh frame gets the words of
    /// the frame it copies. False where it cannot go on: an area
    /// that cannot be added, a page without a frame, or copies that would
    /// overwrite a frame they read or a table.
    #[verifier::rlimit(80)]
    #[verifier::spinoff_prover]
    pub fn fork_user_memory(
        &self,
        alloc: &mut StackFrameAllocator,
        m: &mut PhysMemory,
        new_set: &mut UserMemorySets,
        strap_addr: u64,
    ) -> (r: bool)
        requires
            strap_addr < 0x100_0000_0000_0000,
            alloc_ok(*old(alloc), *old(m)),
            table_ok(*old(m), old(new_set).table.root_ppn.0, old(alloc).free_frames()),
        ensures
            alloc_ok(*final(alloc), *final(m)),
            table_ok(*final(m), final(new_set).table.root_ppn.0, final(alloc).free_frames()),
            r ==> forked(*self, *final(new_set), *final(m), strap_addr),
    {
        let trap = String::from_str("trap_text");
        let has_trap = self.sets.get(&trap).is_some();
        if has_trap {
            if !new_set.trap_page_free(alloc, m) {
                return false;
            }
            new_set.set_trap_text_page(alloc, m, strap_addr);
        }
        let ghost c1 = *new_set;
        let ghost m1 = *m;
        let keys = self.sets.keys();
        if !self.fork_areas(alloc, m, new_set, &keys) {
            return false;
        }
        let plan = match self.fork_plan(new_set, &keys) {
            Some(p) => p,
            None => {
                return false;
            },
        };
        let root = new_set.table.root_ppn.0;
        let keep = if root != 0 {
            table_frames(m, root, Ghost(alloc.free_frames()))
        } else {
            Vec::new()
        };
        let ghost m2 = *m;
        let ok = copy_frames(m, &plan, &keep);
        proof {
            if ok && root != 0 {
                assert forall|t: u64, w: int|
                    crate::mm::page_table::is_table(m2, root, t) && 0 <= w < 512 implies #[trigger] m.word(t, w) == m2.word(t, w) by {
                    crate::mm::page_table::lemma_table_in_memory(m2, root, alloc.free_frames(), t);
                    assert(keep@.contains(t));
                    let k = choose|k: int| 0 <= k < keep@.len() && keep@[k] == t;
                    assert(!written(plan@, plan@.len() as int, t)) by {
                        if written(plan@, plan@.len() as int, t) {
                            let k2 = choose|k2: int| 0 <= k2 < plan@.len() && #[trigger] plan@[k2].1 == t;
                            assert(plan@[k2].1 != keep@[k]);
                        }
                    }
                }
                lemma_tables_kept(m2, *m, root, alloc.free_frames());
            }
            if ok && areas(*self).contains_key("trap_text"@) {
                assert(has_trap);
                assert(areas(c1).contains_key("trap_text"@));
                assert(areas(*new_set).contains_key("trap_text"@));
            }
            if ok {
                assert forall|n: Seq<char>| #[trigger] areas(*self).contains_key(n) && n != "trap_text"@ implies forked_area(
                    *self,
                    *new_set,
                    *m,
                    n,
                ) by {
                    lemma_forked_area(*self, *new_set, m2, *m, plan@, keep@, n);
                }
            }
        }
        ok
    }
}

/// Byte `i` of `data`, or zero past its end.
pub open spec fn padded(data: Seq<u8>, i: int) -> int {
    if 0 <= i < data.len() {
        data[i] as int
    } else {
        0
    }
}

/// The little-endian word of the eight bytes of `data` from `off` on
/// (zero past its end).
pub open spec fn le_word(data: Seq<u8>, off: int) -> int {
    padded(data, off) + 0x100 * padded(data, off + 1) + 0x1_0000 * padded(data, off + 2) + 0x100_0000 * padded(
        data,
        off + 3,
    ) + 0x1_0000_0000 * padded(data, off + 4) + 0x100_0000_0000 * padded(data, off + 5) + 0x1_0000_0000_0000
        * padded(data, off + 6) + 0x100_0000_0000_0000 * padded(data, off + 7)
}

/// Byte `i` of `data`, or zero past its end.
fn padded_exec(data: &[u8], i: u64) -> (r: u64)
    ensures
        r == padded(data@, i as int),
        r < 256,
{
    if i < data.len() as u64 {
        data[i as usize] as u64
    } else {
        0
    }
}

/// The copies of `chunks` can be made: each frame written is a frame of
/// memory, none is written twice, and each page of file data lies at an
/// offset below 2^64.
pub open spec fn chunks_ok(m: PhysMemory, chunks: Seq<CopyChunk>) -> bool {
    &&& forall|j: int| 0 <= j < chunks.len() ==> m.has_frame(#[trigger] chunks[j].dst_ppn) && chunks[j].src_offset + 4096 <= u64::MAX
    &&& forall|j: int, k: int| 0 <= j < k < chunks.len() ==> #[trigger] chunks[j].dst_ppn != #[trigger] chunks[k].dst_ppn
}

/// Copies the file data that a load planned: each chunk's frame gets the
/// 4096 bytes of `data` from its offset on, word by word (zero past the
/// end of `data`), after checking `chunks_ok` (false, with nothing
/// changed, where it fails). Frames that no chunk names keep their words.
#[verifier::spinoff_prover]
#[verifier::rlimit(40)]
pub fn copy_src_data(m: &mut PhysMemory, data: &[u8], chunks: &Vec<CopyChunk>) -> (r: bool)
    ensures
        r == chunks_ok(*old(m), chunks@),
        !r ==> *final(m) == *old(m),
        final(m).base_ppn == old(m).base_ppn,
        final(m).words@.len() == old(m).words@.len(),
        r ==> forall|j: int, w: int|
            0 <= j < chunks@.len() && 0 <= w < 512 ==> #[trigger] final(m).word(chunks@[j].dst_ppn, w) == le_word(
                data@,
                chunks@[j].src_offset + 8 * w,
            ),
        r ==> forall|q: u64, w: int|
            #![trigger final(m).word(q, w)]
            old(m).has_frame(q) && 0 <= w < 512 && (forall|j: int| 0 <= j < chunks@.len() ==> chunks@[j].dst_ppn != q)
                ==> final(m).word(q, w) == old(m).word(q, w),
{
    let n = chunks.len();
    let mut j: usize = 0;
    while j < n
        invariant
            n == chunks@.len(),
            j <= n,
            forall|a: int| 0 <= a < j ==> m.has_frame(#[trigger] chunks@[a].dst_ppn) && chunks@[a].src_offset + 4096 <= u64::MAX,
            forall|a: int, k: int| 0 <= a < k < n && a < j ==> #[trigger] chunks@[a].dst_ppn != #[trigger] chunks@[k].dst_ppn,
        decreases n - j,
    {
        let c = chunks[j];
        if !m.contains_frame(c.dst_ppn) || c.src_offset > u64::MAX - 4096 {
            return false;
        }
        let mut k: usize = j + 1;
        while k < n
            invariant
                n == chunks@.len(),
                j < n,
                j + 1 <= k <= n,
                c == chunks@[j as int],
                forall|b: int| j < b < k ==> chunks@[j as int].dst_ppn != #[trigger] chunks@[b].dst_ppn,
            decreases n - k,
        {
            if chunks[k].dst_ppn == c.dst_ppn {
                return false;
            }
            k = k + 1;
        }
        j = j + 1;
    }
    let ghost m0 = *m;
    let mut j: usize = 0;
    while j < n
        invariant
            n == chunks@.len(),
            j <= n,
            chunks_ok(m0, chunks@),
            m.base_ppn == m0.base_ppn,
            m.words@.len() == m0.words@.len(),
            forall|a: int, w: int| 0 <= a < j && 0 <= w < 512 ==> #[trigger] m.word(chunks@[a].dst_ppn, w) == le_word(data@, chunks@[a].src_offset + 8 * w),
            forall|q: u64, w: int|
                #![trigger m.word(q, w)]
                m0.has_frame(q) && 0 <= w < 512 && (forall|a: int| 0 <= a < j ==> chunks@[a].dst_ppn != q) ==> m.word(q, w) == m0.word(q, w),
        decreases n - j,
    {
        let c = chunks[j];
        proof {
            assert(m0.has_frame(chunks@[j as int].dst_ppn));
        }
        let mut i: usize = 0;
        while i < 512
            invariant
                n == chunks@.len(),
                j < n,
                i <= 512,
                c == chunks@[j as int],
                chunks_ok(m0, chunks@),
                m0.has_frame(c.dst_ppn),
                c.src_offset + 4096 <= u64::MAX,
                m.base_ppn == m0.base_ppn,
                m.words@.len() == m0.words@.len(),
                forall|a: int, w: int| 0 <= a < j && 0 <= w < 512 ==> #[trigger] m.word(chunks@[a].dst_ppn, w) == le_word(data@, chunks@[a].src_offset + 8 * w),
                forall|q: u64, w: int|
                    #![trigger m.word(q, w)]
                    m0.has_frame(q) && 0 <= w < 512 && q != c.dst_ppn && (forall|a: int| 0 <= a < j ==> chunks@[a].dst_ppn != q) ==> m.word(q, w) == m0.word(q, w),
                forall|w: int| 0 <= w < i ==> #[trigger] m.word(c.dst_ppn, w) == le_word(data@, c.src_offset + 8 * w),
            decreases 512 - i,
        {
            let off: u64 = c.src_offset + 8 * (i as u64);
            let b0 = padded_exec(data, off);
            let b1 = padded_exec(data, off + 1);
            let b2 = padded_exec(data, off + 2);
            let b3 = padded_exec(data, off + 3);
            let b4 = padded_exec(data, off + 4);
            let b5 = padded_exec(data, off + 5);
            let b6 = padded_exec(data, off + 6);
            let b7 = padded_exec(data, off + 7);
            let v: u64 = b0 + 0x100 * b1 + 0x1_0000 * b2 + 0x100_0000 * b3 + 0x1_0000_0000 * b4 + 0x100_0000_0000 * b5
                + 0x1_0000_0000_0000 * b6 + 0x100_0000_0000_0000 * b7;
            let ghost mb = *m;
            m.write_word(c.dst_ppn, i, v);
            proof {
                crate::mm::page_table::lemma_write_word_effect(mb, *m, c.dst_ppn, i as int, v);
                assert forall|a: int, w: int| 0 <= a < j && 0 <= w < 512 implies #[trigger] m.word(chunks@[a].dst_ppn, w) == le_word(data@, chunks@[a].src_offset + 8 * w) by {
                    assert(chunks@[a].dst_ppn != chunks@[j as int].dst_ppn);
                    assert(mb.word(chunks@[a].dst_ppn, w) == le_word(data@, chunks@[a].src_offset + 8 * w));
                }
            }
            i = i + 1;
        }
        proof {
            assert forall|q: u64, w: int|
                #![trigger m.word(q, w)]
                m0.has_frame(q) && 0 <= w < 512 && (forall|a: int| 0 <= a < j + 1 ==> chunks@[a].dst_ppn != q) implies m.word(q, w) == m0.word(q, w) by {
                assert(chunks@[j as int].dst_ppn != q);
            }
        }
        j = j + 1;
    }
    true
}

} // verus!
