//! The layout of a user address space, map areas and their permissions.
use vstd::prelude::*;
use crate::mm::address::{PhysAddr, PhysPageNum, VirtPageNum, VirtualAddr};
use crate::mm::page_table::{PhysMemory, do_table_walk_in_4k, path_in_memory, walk};
use crate::mm::areas::{PieceMap, piece_map_view};

verus! {

/// One GiB.
pub const MEM_IN_1_GB: u64 = 0x4000_0000;
/// The page at the top of every address space that holds the trap code.
pub const RISV_TRAP_TEXT_STRAT: u64 = 0xFFFF_FFFF_FFFF_F000;
/// End of the area of trap contexts (1 GiB below the trap code).
pub const RISV_TRAP_CONTEXT_END: u64 = 0xFFFF_FFFF_BFFF_F000;
/// Start of the area of trap contexts.
pub const RISV_TRAP_CONTEXT_STRAT: u64 = 0xFFFF_FFFF_7FFF_F000;
/// End of the area of user stacks.
pub const RISV_USER_STACK_END: u64 = 0xFFFF_FFFF_3FFF_F000;
/// Start of the area of user stacks.
pub const RISV_USER_STACK_START: u64 = 0xFFFF_FFFE_FFFF_F000;
/// Where a process sees the frame buffer.
pub const USER_FRAMEBUFFER_MAPPED_ADDR: u64 = 0x20_0000_0000;
/// Size of one user stack.
pub const USER_STACK_SIZE_U64: u64 = 8192;
/// Size of a page.
pub const PAGE_SIZE_U64: u64 = 4096;

/// Map permission bits, as in a page-table entry: R, W, X, U.
#[derive(Copy, Clone, PartialEq, Eq, Structural)]
pub struct MapPermission {
    pub bits: u8,
}

/// Readable.
pub const MAP_PERM_R: u8 = 2;
/// Writable.
pub const MAP_PERM_W: u8 = 4;
/// Executable.
pub const MAP_PERM_X: u8 = 8;
/// Reachable from user mode.
pub const MAP_PERM_U: u8 = 16;

impl MapPermission {
    /// The permission with bits `bits`, if every bit names a permission.
    pub fn from_bits(bits: u8) -> (r: Option<Self>)
        ensures
            r.is_some() <==> bits & 0xE1 == 0,
            r.is_some() ==> r.unwrap().bits == bits,
    {
        if bits & 0xE1u8 == 0 {
            Some(MapPermission { bits })
        } else {
            None
        }
    }

    /// The union of two permissions.
    pub fn union(self, other: MapPermission) -> (r: MapPermission)
        ensures
            r.bits == self.bits | other.bits,
    {
        MapPermission { bits: self.bits | other.bits }
    }
}

/// A contiguous range of virtual addresses with one permission.
#[derive(Copy, Clone, PartialEq, Eq, Structural)]
pub struct MemoryStaticArea {
    pub vaddr_start: VirtualAddr,
    pub vaddr_end: VirtualAddr,
    pub perm: MapPermission,
}

impl MemoryStaticArea {
    /// The area `v_start..v_end` with permission `perms`.
    pub fn new(v_start: VirtualAddr, v_end: VirtualAddr, perms: MapPermission) -> (r: Self)
        ensures
            r.vaddr_start == v_start,
            r.vaddr_end == v_end,
            r.perm == perms,
    {
        Self { vaddr_start: v_start, vaddr_end: v_end, perm: perms }
    }
}

/// The top of the user stack of thread `thread_id`.
pub open spec fn user_stack_top(thread_id: nat) -> nat {
    0xFFFF_FFFE_FFFF_F000 + (4096 + 8192) * (thread_id + 1)
}

/// The first address of the trap context of thread `thread_id`.
pub open spec fn user_trap_context_start(thread_id: nat) -> nat {
    0xFFFF_FFFF_7FFF_F000 + 4096 * (2 * thread_id + 1)
}

/// The top of the user stack of thread `thread_id`: each thread's stack
/// sits above a guard page.
pub fn get_user_stack_top(thread_id: usize) -> (r: u64)
    requires
        user_stack_top(thread_id as nat) <= u64::MAX,
    ensures
        r == user_stack_top(thread_id as nat),
{
    let t: u64 = thread_id as u64;
    assert(t + 1 <= 0x1_0000_0000 && 12288 * (t + 1) <= 0x1_0000_0FFF) by (nonlinear_arith)
        requires
            0xFFFF_FFFE_FFFF_F000 + 12288 * (t + 1) <= u64::MAX,
    ;
    RISV_USER_STACK_START + (PAGE_SIZE_U64 + USER_STACK_SIZE_U64) * (t + 1)
}

/// The first address of the trap context of thread `thread_id`: trap
/// contexts sit on every other page.
pub fn get_user_trap_context_start(thread_id: usize) -> (r: u64)
    requires
        user_trap_context_start(thread_id as nat) <= u64::MAX,
    ensures
        r == user_trap_context_start(thread_id as nat),
{
    let t: u64 = thread_id as u64;
    assert(2 * t + 1 <= 0x8_0001 && 4096 * (2 * t + 1) <= 0x8000_0FFF) by (nonlinear_arith)
        requires
            0xFFFF_FFFF_7FFF_F000 + 4096 * (2 * t + 1) <= u64::MAX,
    ;
    RISV_TRAP_CONTEXT_STRAT + PAGE_SIZE_U64 * (2 * t + 1)
}

/// A piece of a user buffer that is contiguous in physical memory.
#[derive(Copy, Clone, PartialEq, Eq, Structural)]
pub struct PhysBuffer {
    pub start: u64,
    pub len: u64,
}

impl PhysBuffer {
    /// The piece `buf_start..buf_start + buf_len`.
    pub fn new(buf_start: u64, buf_len: u64) -> (r: Self)
        ensures
            r.start == buf_start,
            r.len == buf_len,
    {
        Self { start: buf_start, len: buf_len }
    }
}

/// The 39-bit virtual address that `buf` names.
pub open spec fn va_of(buf: u64) -> nat {
    (buf % 0x80_0000_0000) as nat
}

/// The physical address of the page that page `v` maps to.
pub open spec fn page_pa(m: PhysMemory, root: u64, v: nat) -> nat {
    (walk(m, root, v as u64).unwrap() * 4096) as nat
}

/// The pieces, contiguous in physical memory, of the user buffer of `len`
/// bytes at virtual address `s`: the rest of the first page, every page in
/// between, and the start of the last page (empty when the buffer ends on
/// a page boundary).
pub open spec fn buffer_pieces(m: PhysMemory, root: u64, s: nat, len: nat) -> Seq<PhysBuffer> {
    let e = s + len;
    let vs = s / 4096;
    let ve = e / 4096;
    let off = s % 4096;
    if vs == ve {
        seq![PhysBuffer { start: (page_pa(m, root, vs) + off) as u64, len: len as u64 }]
    } else {
        seq![PhysBuffer { start: (page_pa(m, root, vs) + off) as u64, len: (4096 - off) as u64 }]
            + Seq::new(
            (ve - vs - 1) as nat,
            |k: int| PhysBuffer { start: page_pa(m, root, (vs + 1 + k) as nat) as u64, len: 4096 },
        ) + seq![PhysBuffer { start: page_pa(m, root, ve) as u64, len: (e % 4096) as u64 }]
    }
}

/// The pieces of a user buffer follow its pages: piece `k` lies in the
/// frame that the table walk gives for the buffer's `k`-th page, from the
/// offset of the buffer's start for the first piece and from the frame's
/// start for the others; the first piece runs to the end of its page (or
/// to the buffer's end), the middle ones are whole pages, and the last
/// ends where the buffer does.
pub proof fn lemma_pieces_follow_pages(m: PhysMemory, root: u64, s: nat, len: nat)
    ensures
        ({
            let p = buffer_pieces(m, root, s, len);
            let n = (s + len) / 4096 - s / 4096 + 1;
            &&& p.len() == n
            &&& forall|k: int|
                0 <= k < n ==> #[trigger] p[k].start == (walk(m, root, (s / 4096 + k) as u64).unwrap() * 4096 + if k
                    == 0 {
                    s % 4096
                } else {
                    0
                }) as u64
            &&& forall|k: int| 0 < k < n - 1 ==> #[trigger] p[k].len == 4096
            &&& n == 1 ==> p[0].len == len as u64
            &&& n > 1 ==> p[0].len == (4096 - s % 4096) as u64 && p[n - 1].len == ((s + len) % 4096) as u64
        }),
{
    let p = buffer_pieces(m, root, s, len);
    let vs = s / 4096;
    let ve = (s + len) / 4096;
    assert(vs <= ve) by (nonlinear_arith)
        requires
            vs == s / 4096,
            ve == (s + len) / 4096,
    ;
    if vs != ve {
        assert forall|k: int| 0 < k < ve - vs implies #[trigger] p[k].start == page_pa(m, root, (vs + k) as nat) as u64
            && p[k].len == 4096 by {}
    }
}

/// Every page from `s / 4096` to `(s + len) / 4096` is mapped, through
/// tables that are part of memory.
pub open spec fn buffer_mapped(m: PhysMemory, root: u64, s: nat, len: nat) -> bool {
    forall|v: nat|
        s / 4096 <= v <= (s + len) / 4096 ==> path_in_memory(m, root, #[trigger] (v as u64)) && walk(
            m,
            root,
            v as u64,
        ).is_some()
}

/// The physical address of the page that page `vpn` maps to.
pub(crate) fn page_phys_addr(m: &PhysMemory, table: PhysPageNum, vpn: u64) -> (r: u64)
    requires
        path_in_memory(*m, table.0, vpn),
        walk(*m, table.0, vpn).is_some(),
    ensures
        r == page_pa(*m, table.0, vpn as nat),
{
    let ppn = do_table_walk_in_4k(m, table, VirtPageNum(vpn)).unwrap();
    let p = ppn.0;
    proof {
        crate::mm::page_table::lemma_walk_bound(*m, table.0, vpn);
    }
    assert(p < 0x1000_0000_0000 ==> p << 12u64 == p * 4096) by (bit_vector);
    PhysAddr::from(ppn).0
}

/// The physical address of user address `uaddr` in the address space
/// whose root table is `table`: the address of its page plus its offset.
pub fn uaddr_to_phy_addr(m: &PhysMemory, table: PhysPageNum, uaddr: u64) -> (r: u64)
    requires
        path_in_memory(*m, table.0, (va_of(uaddr) / 4096) as u64),
        walk(*m, table.0, (va_of(uaddr) / 4096) as u64).is_some(),
    ensures
        r == page_pa(*m, table.0, va_of(uaddr) / 4096) + va_of(uaddr) % 4096,
{
    proof {
        assert(uaddr & 0x0000_007F_FFFF_FFFF == uaddr % 0x80_0000_0000) by (bit_vector);
        crate::mm::page_table::lemma_walk_bound(*m, table.0, (va_of(uaddr) / 4096) as u64);
    }
    let start_addr = VirtualAddr::from(uaddr);
    let start_page = start_addr.round_down_in_4k();
    let addr = page_phys_addr(m, table, start_addr.0 / 4096);
    start_addr.0 - start_page.0 + addr
}

/// The physical address of kernel address `kaddr`, the static table's root
/// lying at physical address `root`: kernel-stack addresses are looked up
/// in the table, every other address is its own physical address.
pub fn kern_vaddr_to_phy_addr(m: &PhysMemory, root: u64, kaddr: u64) -> (r: u64)
    requires
        kaddr >= 0xFFFF_FFFF_8000_0000 ==> {
            let t = crate::mm::kernel_set::root_ppn_of(root);
            &&& path_in_memory(*m, t, (va_of(kaddr) / 4096) as u64)
            &&& walk(*m, t, (va_of(kaddr) / 4096) as u64).is_some()
        },
    ensures
        kaddr >= 0xFFFF_FFFF_8000_0000 ==> r == page_pa(*m, crate::mm::kernel_set::root_ppn_of(root), va_of(kaddr) / 4096)
            + va_of(kaddr) % 4096,
        kaddr < 0xFFFF_FFFF_8000_0000 ==> r == kaddr,
{
    if kaddr >= crate::mm::kernel_set::RISV_KERNEL_STACK_ARER_START {
        let table = PhysPageNum::from(PhysAddr::from(root));
        uaddr_to_phy_addr(m, table, kaddr)
    } else {
        kaddr
    }
}

/// Splits the user buffer of `len` bytes at `buf`, in the address space
/// whose root table is `table`, into pieces that are contiguous in
/// physical memory, in order.
#[verifier::rlimit(60)]
#[verifier::spinoff_prover]
pub fn translate_user_buffer(m: &PhysMemory, table: PhysPageNum, buf: u64, len: u64) -> (r: Vec<PhysBuffer>)
    requires
        va_of(buf) + len < 0x80_0000_0000,
        buffer_mapped(*m, table.0, va_of(buf), len as nat),
    ensures
        r@ == buffer_pieces(*m, table.0, va_of(buf), len as nat),
{
    proof {
        assert(buf & 0x0000_007F_FFFF_FFFF == buf % 0x80_0000_0000) by (bit_vector);
    }
    let start_addr = VirtualAddr::from(buf);
    let s = start_addr.0;
    let e = s + len;
    proof {
        assert(e < 0x80_0000_0000 ==> e & 0x0000_007F_FFFF_FFFF == e) by (bit_vector);
    }
    let end_addr = VirtualAddr::from(e);
    let start_page = start_addr.round_down_in_4k();
    let end_page = end_addr.round_down_in_4k();
    let vs = s / 4096;
    let ve = e / 4096;
    let off = s % 4096;
    proof {
        assert(start_page.0 == vs * 4096);
        assert(end_page.0 == ve * 4096);
        assert((s as nat) / 4096 <= vs as nat <= ((s + len) as nat) / 4096);
        assert((s as nat) / 4096 <= ve as nat <= ((s + len) as nat) / 4096);
        assert(path_in_memory(*m, table.0, vs as nat as u64));
        assert(path_in_memory(*m, table.0, ve as nat as u64));
    }
    let mut map: Vec<PhysBuffer> = Vec::new();
    if start_page.0 == end_page.0 {
        let addr = page_phys_addr(m, table, vs);
        map.push(PhysBuffer::new(s - start_page.0 + addr, len));
        proof {
            assert(map@ =~= buffer_pieces(*m, table.0, va_of(buf), len as nat));
        }
    } else {
        let addr1 = page_phys_addr(m, table, vs);
        let offset1 = s - start_page.0;
        map.push(PhysBuffer::new(offset1 + addr1, 4096 - offset1));
        let mut vpn = vs + 1;
        while vpn < ve
            invariant
                vs < ve,
                vs + 1 <= vpn <= ve,
                ve as nat == ((s + len) as nat) / 4096,
                vs as nat == (s as nat) / 4096,
                s as nat == va_of(buf),
                buffer_mapped(*m, table.0, va_of(buf), len as nat),
                map@.len() == vpn - vs,
                map@[0] == (PhysBuffer { start: (page_pa(*m, table.0, vs as nat) + off) as u64, len: (4096 - off) as u64 }),
                forall|k: int|
                    0 <= k < vpn - vs - 1 ==> #[trigger] map@[k + 1] == (PhysBuffer {
                        start: page_pa(*m, table.0, (vs + 1 + k) as nat) as u64,
                        len: 4096,
                    }),
            decreases ve - vpn,
        {
            proof {
                assert((s as nat) / 4096 <= vpn as nat <= ((s + len) as nat) / 4096);
                assert(path_in_memory(*m, table.0, vpn as nat as u64));
            }
            let addr = page_phys_addr(m, table, vpn);
            map.push(PhysBuffer::new(addr, 4096));
            vpn = vpn + 1;
        }
        let addr2 = page_phys_addr(m, table, ve);
        let offset2 = len + offset1 - (ve - vs) * 4096;
        map.push(PhysBuffer::new(addr2, offset2));
        proof {
            let t = buffer_pieces(*m, table.0, va_of(buf), len as nat);
            assert(offset2 == e % 4096);
            assert(map@.len() == t.len());
            assert forall|k: int| 0 <= k < map@.len() implies map@[k] == t[k] by {
                if 0 < k < map@.len() - 1 {
                    assert(map@[(k - 1) + 1] == t[k]);
                }
            }
            assert(map@ =~= t);
        }
    }
    map
}

/// Where the word holding the byte at physical address `pa` sits among
/// the words of a memory whose first frame is `base`.
pub open spec fn byte_word_pos(base: u64, pa: nat) -> int {
    (pa / 4096 - base) * 512 + (pa % 4096) / 8
}

/// The shift of the byte at physical address `pa` within its word.
pub open spec fn byte_shift(pa: nat) -> u64 {
    (8 * (pa % 8)) as u64
}

/// The byte at physical address `pa` of the memory words `ws` (first frame
/// `base`): byte `pa % 8`, little-endian, of its word.
pub open spec fn byte_of(ws: Seq<u64>, base: u64, pa: nat) -> u8 {
    ((ws[byte_word_pos(base, pa)] >> byte_shift(pa)) & 0xFF) as u8
}

/// The words `ws` with the byte at physical address `pa` set to `b`.
pub open spec fn set_byte(ws: Seq<u64>, base: u64, pa: nat, b: u8) -> Seq<u64> {
    let k = byte_word_pos(base, pa);
    ws.update(k, (ws[k] & !(0xFFu64 << byte_shift(pa))) | ((b as u64) << byte_shift(pa)))
}

/// The words `ws` after the first `n` bytes of `data` are written, in
/// order, at the addresses `addrs`.
pub open spec fn bytes_written(ws: Seq<u64>, base: u64, addrs: Seq<nat>, data: Seq<u8>, n: nat) -> Seq<u64>
    decreases n,
{
    if n == 0 {
        ws
    } else {
        set_byte(bytes_written(ws, base, addrs, data, (n - 1) as nat), base, addrs[n - 1], data[n - 1])
    }
}

/// The physical addresses of the bytes of `pieces`, in order.
pub open spec fn piece_addrs(pieces: Seq<PhysBuffer>) -> Seq<nat>
    decreases pieces.len(),
{
    if pieces.len() == 0 {
        Seq::empty()
    } else {
        let last = pieces.last();
        piece_addrs(pieces.drop_last()) + Seq::new(last.len as nat, |j: int| (last.start + j) as nat)
    }
}

/// Every byte of `pieces` lies in a frame of memory `m`, at an address
/// below 2^64, and there are at most 2^64 - 1 of them.
pub open spec fn pieces_in_memory(m: PhysMemory, pieces: Seq<PhysBuffer>) -> bool {
    &&& piece_addrs(pieces).len() <= u64::MAX
    &&& forall|k: int| 0 <= k < pieces.len() ==> #[trigger] pieces[k].start + pieces[k].len <= u64::MAX
    &&& forall|i: int| 0 <= i < piece_addrs(pieces).len() ==> m.has_frame((#[trigger] piece_addrs(pieces)[i] / 4096) as u64)
}

/// Splitting off the last piece.
proof fn lemma_piece_addrs_take(pieces: Seq<PhysBuffer>, k: int)
    requires
        0 <= k < pieces.len(),
    ensures
        piece_addrs(pieces.take(k + 1)) == piece_addrs(pieces.take(k)) + Seq::new(
            pieces[k].len as nat,
            |j: int| (pieces[k].start + j) as nat,
        ),
        piece_addrs(pieces.take(k + 1)).len() <= piece_addrs(pieces).len(),
    decreases pieces.len() - k,
{
    assert(pieces.take(k + 1).drop_last() =~= pieces.take(k));
    if k + 1 < pieces.len() {
        lemma_piece_addrs_take(pieces, k + 1);
    } else {
        assert(pieces.take(k + 1) =~= pieces);
    }
}

/// The addresses of the first `k` pieces start the addresses of all.
proof fn lemma_piece_addrs_prefix(pieces: Seq<PhysBuffer>, k: int)
    requires
        0 <= k <= pieces.len(),
    ensures
        piece_addrs(pieces.take(k)).len() <= piece_addrs(pieces).len(),
        forall|i: int| 0 <= i < piece_addrs(pieces.take(k)).len() ==> #[trigger] piece_addrs(pieces.take(k))[i] == piece_addrs(pieces)[i],
    decreases pieces.len() - k,
{
    if k == pieces.len() {
        assert(pieces.take(k) =~= pieces);
    } else {
        lemma_piece_addrs_take(pieces, k);
        lemma_piece_addrs_prefix(pieces, k + 1);
        assert forall|i: int| 0 <= i < piece_addrs(pieces.take(k)).len() implies #[trigger] piece_addrs(pieces.take(k))[i] == piece_addrs(pieces)[i] by {
            assert(piece_addrs(pieces.take(k + 1))[i] == piece_addrs(pieces.take(k))[i]);
        }
    }
}

/// The bytes of memory at physical address `pa`.
fn read_byte(m: &PhysMemory, pa: u64) -> (r: u8)
    requires
        m.has_frame(pa / 4096),
    ensures
        r == byte_of(m.words@, m.base_ppn, pa as nat),
{
    let w = m.read_word(pa / 4096, ((pa % 4096) / 8) as usize);
    ((w >> (8 * (pa % 8))) & 0xFF) as u8
}

/// Sets the byte at physical address `pa` to `b`.
fn write_byte(m: &mut PhysMemory, pa: u64, b: u8)
    requires
        old(m).has_frame(pa / 4096),
    ensures
        final(m).base_ppn == old(m).base_ppn,
        final(m).words@ == set_byte(old(m).words@, old(m).base_ppn, pa as nat, b),
{
    let f = pa / 4096;
    let i = ((pa % 4096) / 8) as usize;
    let sh = 8 * (pa % 8);
    let w = m.read_word(f, i);
    m.write_word(f, i, (w & !(0xFFu64 << sh)) | ((b as u64) << sh));
}

/// The `n` physical addresses from `pa` on.
pub open spec fn addrs_from(pa: u64, n: nat) -> Seq<nat> {
    Seq::new(n, |i: int| (pa + i) as nat)
}

/// The frame of the byte `i` bytes after physical address `pa`.
pub open spec fn byte_frame(pa: u64, i: int) -> u64 {
    ((pa + i) / 4096) as u64
}

/// The bytes of memory `m` at the `n` physical addresses from `pa` on.
pub open spec fn bytes_at(m: PhysMemory, pa: u64, n: nat) -> Seq<u8> {
    Seq::new(n, |i: int| byte_of(m.words@, m.base_ppn, (pa + i) as nat))
}

/// Reads the `n` bytes at the physical addresses from `pa` on.
pub fn read_bytes_at(m: &PhysMemory, pa: u64, n: u64) -> (r: Vec<u8>)
    requires
        pa + n <= u64::MAX,
        forall|i: int| 0 <= i < n ==> m.has_frame(#[trigger] byte_frame(pa, i)),
    ensures
        r@ == bytes_at(*m, pa, n as nat),
{
    let mut r: Vec<u8> = Vec::new();
    let mut i: u64 = 0;
    while i < n
        invariant
            i <= n,
            pa + n <= u64::MAX,
            forall|k: int| 0 <= k < n ==> m.has_frame(#[trigger] byte_frame(pa, k)),
            r@ == bytes_at(*m, pa, i as nat),
        decreases n - i,
    {
        proof {
            assert(m.has_frame(byte_frame(pa, i as int)));
        }
        let b = read_byte(m, pa + i);
        r.push(b);
        proof {
            assert(r@ =~= bytes_at(*m, pa, (i + 1) as nat));
        }
        i = i + 1;
    }
    r
}

/// Writes the bytes of `data` at the physical addresses from `pa` on.
pub fn write_bytes_at(m: &mut PhysMemory, pa: u64, data: &Vec<u8>)
    requires
        pa + data@.len() <= u64::MAX,
        forall|i: int| 0 <= i < data@.len() ==> old(m).has_frame(#[trigger] byte_frame(pa, i)),
    ensures
        final(m).base_ppn == old(m).base_ppn,
        final(m).words@.len() == old(m).words@.len(),
        final(m).words@ == bytes_written(old(m).words@, old(m).base_ppn, addrs_from(pa, data@.len()), data@, data@.len()),
{
    let ghost m0 = *m;
    let ghost addrs = addrs_from(pa, data@.len());
    let mut i: usize = 0;
    while i < data.len()
        invariant
            i <= data@.len(),
            pa + data@.len() <= u64::MAX,
            addrs == addrs_from(pa, data@.len()),
            forall|k: int| 0 <= k < data@.len() ==> m0.has_frame(#[trigger] byte_frame(pa, k)),
            m.base_ppn == m0.base_ppn,
            m.words@.len() == m0.words@.len(),
            m.words@ == bytes_written(m0.words@, m0.base_ppn, addrs, data@, i as nat),
        decreases data@.len() - i,
    {
        let q: u64 = pa + i as u64;
        proof {
            assert(m0.has_frame(byte_frame(pa, i as int)));
            assert(addrs[i as int] == q as nat);
        }
        write_byte(m, q, data[i]);
        i = i + 1;
    }
}

/// Setting one byte of a word and reading bytes of it back.
proof fn lemma_byte_bits(w: u64, b: u8, s1: u64, s2: u64)
    by (bit_vector)
    requires
        s1 < 64,
        s2 < 64,
        s1 % 8 == 0,
        s2 % 8 == 0,
    ensures
        (((w & !(0xFFu64 << s1)) | ((b as u64) << s1)) >> s1) & 0xFF == b as u64,
        s1 != s2 ==> (((w & !(0xFFu64 << s1)) | ((b as u64) << s1)) >> s2) & 0xFF == (w >> s2) & 0xFF,
{
}

/// Setting the byte at `pa` gives it `b` and leaves every other byte.
proof fn lemma_set_byte(ws: Seq<u64>, base: u64, pa: nat, q: nat, b: u8)
    requires
        pa / 4096 >= base,
        q / 4096 >= base,
        0 <= byte_word_pos(base, pa) < ws.len(),
        0 <= byte_word_pos(base, q) < ws.len(),
    ensures
        byte_of(set_byte(ws, base, pa, b), base, pa) == b,
        q != pa ==> byte_of(set_byte(ws, base, pa, b), base, q) == byte_of(ws, base, q),
        set_byte(ws, base, pa, b).len() == ws.len(),
{
    let s1 = byte_shift(pa);
    let s2 = byte_shift(q);
    let w = ws[byte_word_pos(base, pa)];
    lemma_byte_bits(w, b, s1, s2);
    if q != pa && byte_word_pos(base, q) == byte_word_pos(base, pa) {
        assert(pa / 4096 == q / 4096 && (pa % 4096) / 8 == (q % 4096) / 8) by (nonlinear_arith)
            requires
                (pa / 4096 - base) * 512 + (pa % 4096) / 8 == (q / 4096 - base) * 512 + (q % 4096) / 8,
                pa / 4096 >= base,
                q / 4096 >= base,
                (pa % 4096) / 8 < 512,
                (q % 4096) / 8 < 512,
        ;
        assert(pa % 8 != q % 8) by (nonlinear_arith)
            requires
                pa / 4096 == q / 4096,
                (pa % 4096) / 8 == (q % 4096) / 8,
                pa != q,
        ;
    }
}

/// The bytes written stay where they were written, as the memory's size
/// stays.
proof fn lemma_written_len(ws: Seq<u64>, base: u64, addrs: Seq<nat>, data: Seq<u8>, n: nat)
    requires
        n <= addrs.len(),
        forall|i: int| 0 <= i < n ==> 0 <= #[trigger] byte_word_pos(base, addrs[i]) < ws.len(),
    ensures
        bytes_written(ws, base, addrs, data, n).len() == ws.len(),
    decreases n,
{
    if n > 0 {
        lemma_written_len(ws, base, addrs, data, (n - 1) as nat);
    }
}

/// Bytes written at distinct addresses read back as written.
pub proof fn lemma_write_then_read(ws: Seq<u64>, base: u64, addrs: Seq<nat>, data: Seq<u8>, n: nat)
    requires
        n <= addrs.len(),
        n <= data.len(),
        addrs.no_duplicates(),
        forall|i: int| 0 <= i < n ==> #[trigger] addrs[i] / 4096 >= base && 0 <= byte_word_pos(base, addrs[i]) < ws.len(),
    ensures
        forall|i: int| 0 <= i < n ==> #[trigger] byte_of(bytes_written(ws, base, addrs, data, n), base, addrs[i]) == data[i],
    decreases n,
{
    if n > 0 {
        let m = (n - 1) as nat;
        lemma_write_then_read(ws, base, addrs, data, m);
        lemma_written_len(ws, base, addrs, data, m);
        let w = bytes_written(ws, base, addrs, data, m);
        assert forall|i: int| 0 <= i < n implies #[trigger] byte_of(bytes_written(ws, base, addrs, data, n), base, addrs[i]) == data[i] by {
            lemma_set_byte(w, base, addrs[m as int], addrs[i], data[m as int]);
            if i < m {
                assert(addrs[i] != addrs[m as int]);
                assert(byte_of(w, base, addrs[i]) == data[i]);
            }
        }
    }
}

/// The numbers below `k` are `k` many.
proof fn lemma_below_len(k: usize)
    ensures
        Set::new(|q: usize| q < k).finite(),
        Set::new(|q: usize| q < k).len() == k,
    decreases k,
{
    if k == 0 {
        assert(Set::new(|q: usize| q < k) =~= Set::<usize>::empty());
    } else {
        lemma_below_len((k - 1) as usize);
        assert(Set::new(|q: usize| q < k) =~= Set::new(|q: usize| q < (k - 1) as usize).insert((k - 1) as usize));
    }
}

/// A user buffer: its address and length, and its pieces in physical
/// memory, by their place in the buffer.
pub struct UserBuffer {
    pub v_start: u64,
    pub len: u64,
    pub kernel_bufs: PieceMap,
}

impl UserBuffer {
    /// The places `0..n` have pieces, and no other place has one.
    pub open spec fn wf(&self) -> bool {
        let v = piece_map_view(self.kernel_bufs);
        &&& v.dom().finite()
        &&& forall|k: usize| #[trigger] v.contains_key(k) == (k < v.dom().len())
    }

    /// The pieces, in order.
    pub open spec fn pieces(&self) -> Seq<PhysBuffer> {
        let v = piece_map_view(self.kernel_bufs);
        Seq::new(v.dom().len(), |k: int| v[k as usize])
    }

    /// The user buffer of `buf_len` bytes at `buf_start` in the address
    /// space rooted at `table`, split as `translate_user_buffer` does.
    pub fn new(m: &PhysMemory, table: PhysPageNum, buf_start: u64, buf_len: u64) -> (r: Self)
        requires
            va_of(buf_start) + buf_len < 0x80_0000_0000,
            buffer_mapped(*m, table.0, va_of(buf_start), buf_len as nat),
        ensures
            r.v_start == buf_start,
            r.len == buf_len,
            r.wf(),
            r.pieces() == buffer_pieces(*m, table.0, va_of(buf_start), buf_len as nat),
    {
        let list = translate_user_buffer(m, table, buf_start, buf_len);
        let mut bufs = PieceMap::new();
        let mut k: usize = 0;
        while k < list.len()
            invariant
                k <= list@.len(),
                piece_map_view(bufs).dom() =~= Set::new(|q: usize| q < k),
                forall|q: usize| q < k ==> #[trigger] piece_map_view(bufs)[q] == list@[q as int],
            decreases list@.len() - k,
        {
            let _ = bufs.insert(k, list[k]);
            k = k + 1;
        }
        proof {
            let v = piece_map_view(bufs);
            assert(v.dom() =~= Set::new(|q: usize| q < k));
            lemma_below_len(k);
            assert(v.dom().len() == k);
        }
        let r = UserBuffer { v_start: buf_start, len: buf_len, kernel_bufs: bufs };
        proof {
            assert(r.pieces() =~= list@);
        }
        r
    }

    /// The pieces, in order, in a vector.
    pub fn piece_list(&self) -> (r: Vec<PhysBuffer>)
        requires
            self.wf(),
        ensures
            r@ == self.pieces(),
    {
        let n = self.kernel_bufs.len();
        let mut r: Vec<PhysBuffer> = Vec::new();
        let mut k: usize = 0;
        while k < n
            invariant
                self.wf(),
                n == self.pieces().len(),
                k <= n,
                r@ == self.pieces().take(k as int),
            decreases n - k,
        {
            let p = self.kernel_bufs.get(k).unwrap();
            r.push(p);
            proof {
                assert(r@ =~= self.pieces().take(k + 1));
            }
            k = k + 1;
        }
        proof {
            assert(r@ =~= self.pieces());
        }
        r
    }

    /// Writes the bytes of `data` into the buffer, piece by piece, as far
    /// as the buffer reaches.
    pub fn write_kernel_slice_to_user(&self, m: &mut PhysMemory, data: &[u8])
        requires
            self.wf(),
            pieces_in_memory(*old(m), self.pieces()),
        ensures
            ({
                let addrs = piece_addrs(self.pieces());
                let n = if data@.len() < addrs.len() { data@.len() } else { addrs.len() };
                &&& final(m).base_ppn == old(m).base_ppn
                &&& final(m).words@ == bytes_written(old(m).words@, old(m).base_ppn, addrs, data@, n)
            }),
    {
        let ghost pieces = self.pieces();
        let nb = self.kernel_bufs.len();
        let ghost addrs = piece_addrs(pieces);
        let ghost m0 = *m;
        let mut g: usize = 0;
        let mut k: usize = 0;
        while k < nb && g < data.len()
            invariant
                pieces == self.pieces(),
                self.wf(),
                nb == pieces.len(),
                addrs == piece_addrs(pieces),
                pieces_in_memory(m0, pieces),
                m.base_ppn == m0.base_ppn,
                m.words@.len() == m0.words@.len(),
                k <= pieces.len(),
                g <= data@.len(),
                g <= piece_addrs(pieces.take(k as int)).len(),
                g < data@.len() ==> g == piece_addrs(pieces.take(k as int)).len(),
                piece_addrs(pieces.take(k as int)).len() <= addrs.len(),
                m.words@ == bytes_written(m0.words@, m0.base_ppn, addrs, data@, g as nat),
            decreases pieces.len() - k,
        {
            let b = self.kernel_bufs.get(k).unwrap();
            proof {
                lemma_piece_addrs_take(pieces, k as int);
                lemma_piece_addrs_prefix(pieces, k + 1);
            }
            let mut j: u64 = 0;
            while j < b.len && g < data.len()
                invariant
                    pieces == self.pieces(),
                self.wf(),
                nb == pieces.len(),
                    addrs == piece_addrs(pieces),
                    pieces_in_memory(m0, pieces),
                    m.base_ppn == m0.base_ppn,
                    m.words@.len() == m0.words@.len(),
                    k < pieces.len(),
                    b == pieces[k as int],
                    j <= b.len,
                    piece_addrs(pieces.take(k + 1)) == piece_addrs(pieces.take(k as int)) + Seq::new(
                        b.len as nat,
                        |x: int| (b.start + x) as nat,
                    ),
                    piece_addrs(pieces.take(k + 1)).len() <= addrs.len(),
                    forall|i: int| 0 <= i < piece_addrs(pieces.take(k + 1)).len() ==> #[trigger] piece_addrs(pieces.take(k + 1))[i] == addrs[i],
                    g <= data@.len(),
                    g == piece_addrs(pieces.take(k as int)).len() + j,
                    m.words@ == bytes_written(m0.words@, m0.base_ppn, addrs, data@, g as nat),
                decreases b.len - j,
            {
                proof {
                    assert(piece_addrs(pieces.take(k + 1))[g as int] == (b.start + j) as nat);
                    assert(addrs[g as int] == (b.start + j) as nat);
                    assert(m0.has_frame((addrs[g as int] / 4096) as u64));
                    assert(b.start + b.len <= u64::MAX);
                }
                write_byte(m, b.start + j, data[g]);
                g = g + 1;
                j = j + 1;
            }
            k = k + 1;
        }
        proof {
            let n = if data@.len() < addrs.len() { data@.len() } else { addrs.len() };
            if g < data@.len() {
                assert(k == pieces.len());
                assert(pieces.take(k as int) =~= pieces);
            }
            assert(g == n);
        }
    }

    /// The first `read_len` bytes of the buffer (all of them, when it is
    /// shorter), read piece by piece.
    pub fn read_buff_to_kernel_slice(&self, m: &PhysMemory, read_len: u64) -> (r: Vec<u8>)
        requires
            self.wf(),
            pieces_in_memory(*m, self.pieces()),
        ensures
            ({
                let addrs = piece_addrs(self.pieces());
                let n = if read_len < addrs.len() { read_len as nat } else { addrs.len() };
                r@ == Seq::new(n, |i: int| byte_of(m.words@, m.base_ppn, addrs[i]))
            }),
    {
        let ghost pieces = self.pieces();
        let nb = self.kernel_bufs.len();
        let ghost addrs = piece_addrs(pieces);
        let mut r: Vec<u8> = Vec::new();
        let mut k: usize = 0;
        while k < nb && (r.len() as u64) < read_len
            invariant
                pieces == self.pieces(),
                self.wf(),
                nb == pieces.len(),
                addrs == piece_addrs(pieces),
                pieces_in_memory(*m, pieces),
                k <= pieces.len(),
                r@.len() <= read_len,
                r@.len() <= piece_addrs(pieces.take(k as int)).len(),
                (r@.len() as u64) < read_len ==> r@.len() == piece_addrs(pieces.take(k as int)).len(),
                piece_addrs(pieces.take(k as int)).len() <= addrs.len(),
                forall|i: int| 0 <= i < r@.len() ==> #[trigger] r@[i] == byte_of(m.words@, m.base_ppn, addrs[i]),
                forall|i: int| 0 <= i < piece_addrs(pieces.take(k as int)).len() ==> #[trigger] piece_addrs(pieces.take(k as int))[i] == addrs[i],
            decreases pieces.len() - k,
        {
            let b = self.kernel_bufs.get(k).unwrap();
            proof {
                lemma_piece_addrs_take(pieces, k as int);
                lemma_piece_addrs_prefix(pieces, k + 1);
            }
            let mut j: u64 = 0;
            while j < b.len && (r.len() as u64) < read_len
                invariant
                    pieces == self.pieces(),
                self.wf(),
                nb == pieces.len(),
                    addrs == piece_addrs(pieces),
                    pieces_in_memory(*m, pieces),
                    k < pieces.len(),
                    b == pieces[k as int],
                    j <= b.len,
                    piece_addrs(pieces.take(k + 1)) == piece_addrs(pieces.take(k as int)) + Seq::new(
                        b.len as nat,
                        |x: int| (b.start + x) as nat,
                    ),
                    piece_addrs(pieces.take(k + 1)).len() <= addrs.len(),
                    forall|i: int| 0 <= i < piece_addrs(pieces.take(k as int)).len() ==> #[trigger] piece_addrs(pieces.take(k as int))[i] == addrs[i],
                    forall|i: int| 0 <= i < piece_addrs(pieces.take(k + 1)).len() ==> #[trigger] piece_addrs(pieces.take(k + 1))[i] == addrs[i],
                    r@.len() <= read_len,
                    r@.len() == piece_addrs(pieces.take(k as int)).len() + j,
                    forall|i: int| 0 <= i < r@.len() ==> #[trigger] r@[i] == byte_of(m.words@, m.base_ppn, addrs[i]),
                decreases b.len - j,
            {
                let ghost gi = r@.len() as int;
                proof {
                    assert(piece_addrs(pieces.take(k + 1))[gi] == (b.start + j) as nat);
                    assert(addrs[gi] == (b.start + j) as nat);
                    assert(m.has_frame((addrs[gi] / 4096) as u64));
                    assert(b.start + b.len <= u64::MAX);
                }
                let v = read_byte(m, b.start + j);
                r.push(v);
                j = j + 1;
            }
            proof {
                assert forall|i: int| 0 <= i < piece_addrs(pieces.take(k + 1)).len() implies #[trigger] piece_addrs(pieces.take(k + 1))[i] == addrs[i] by {}
            }
            k = k + 1;
        }
        proof {
            let n = if read_len < addrs.len() { read_len as nat } else { addrs.len() };
            if (r@.len() as u64) < read_len {
                assert(k == pieces.len());
                assert(pieces.take(k as int) =~= pieces);
            }
            assert(r@ =~= Seq::new(n, |i: int| byte_of(m.words@, m.base_ppn, addrs[i])));
        }
        r
    }
}

} // verus!
