//! A thread's trap context: the user registers saved on entry to the
//! kernel, and what the kernel needs to return to user mode.
use vstd::prelude::*;
use crate::mm::kernel_set::{get_kernel_stack_top, kernel_stack_top};
use crate::mm::memory_set::{
    UserBuffer,
    buffer_mapped,
    buffer_pieces,
    byte_of,
    piece_addrs,
    pieces_in_memory,
    va_of,
    addrs_from,
    byte_frame,
    bytes_written,
    write_bytes_at,
    get_user_stack_top,
    get_user_trap_context_start,
    page_pa,
    page_phys_addr,
    user_stack_top,
    user_trap_context_start,
};
use crate::mm::address::{PhysPageNum, VirtualAddr};
use crate::mm::page_table::{PhysMemory, do_table_walk_in_4k, path_in_memory, walk};
use crate::mm::address::VirtPageNum;
use crate::task::thread::Thread;

verus! {

/// A trap context as it sits in memory, one word each: the 32 general
/// registers, then `sepc`, `sstatus`, the kernel stack, the kernel's and
/// the user's `satp`, the trap handler and the context's own user address.
pub struct TrapContext {
    pub cr: [u64; 32],
    pub sepc: u64,
    pub sstatus: u64,
    pub kernel_stack: u64,
    pub kernel_stap: u64,
    pub user_stap: u64,
    pub trap_handler: u64,
    pub context_addr: u64,
}

/// The words of `c`, in memory order.
pub open spec fn context_words(c: TrapContext) -> Seq<u64> {
    c.cr@ + seq![c.sepc, c.sstatus, c.kernel_stack, c.kernel_stap, c.user_stap, c.trap_handler, c.context_addr]
}

/// What the machine gives a new user context: `sstatus` as it reads now,
/// the kernel's `satp`, and the trap handler's address.
#[derive(Copy, Clone)]
pub struct TrapEnv {
    pub sstatus: u64,
    pub kernel_stap: u64,
    pub trap_handler: u64,
}

/// One start-up argument to place on the user stack page: its length, as
/// a word at physical address `len_addr`, then its `len` bytes, read at
/// user address `src`, at physical address `dst`.
#[derive(Copy, Clone, PartialEq, Eq, Structural)]
pub struct StartArg {
    pub len_addr: u64,
    pub len: u64,
    pub src: u64,
    pub dst: u64,
}

/// How many start-up arguments `args` holds: after the first two words,
/// pairs of (address, length).
pub open spec fn args_count(args: Seq<u64>) -> nat {
    ((args.len() - 2) / 2) as nat
}

/// The total length of the first `n` arguments' strings.
pub open spec fn strings_len(args: Seq<u64>, n: nat) -> int
    decreases n,
{
    if n == 0 {
        0
    } else {
        strings_len(args, (n - 1) as nat) + args[(2 * (n - 1) + 3) as int]
    }
}

/// Where the first `n` arguments go, from physical address `base` on:
/// each takes a length word, its bytes and one more byte.
pub open spec fn arg_layout(args: Seq<u64>, base: int, n: nat) -> Seq<StartArg>
    decreases n,
{
    if n == 0 {
        Seq::empty()
    } else {
        let j = (n - 1) as nat;
        let off = base + 9 * j + strings_len(args, j);
        arg_layout(args, base, j).push(
            StartArg {
                len_addr: off as u64,
                len: args[(2 * j + 3) as int],
                src: args[(2 * j + 2) as int],
                dst: (off + 8) as u64,
            },
        )
    }
}

/// The strings never shrink.
pub proof fn lemma_strings_len_mono(args: Seq<u64>, a: nat, b: nat)
    requires
        a <= b,
        2 * b + 2 <= args.len(),
    ensures
        0 <= strings_len(args, a) <= strings_len(args, b),
    decreases b,
{
    if a < b {
        lemma_strings_len_mono(args, a, (b - 1) as nat);
    }
    if b > 0 {
        lemma_strings_len_mono(args, 0, (b - 1) as nat);
    }
}

/// The physical page of user address `va` in the table rooted at `root`.
pub open spec fn user_page(va: nat) -> nat {
    (va % 0x80_0000_0000) / 4096
}

/// What a thread needs for `set_user_trap_context`: its trap-context page
/// and, with arguments, the page below its stack top are mapped, the
/// addresses of both fit, and the arguments fit in a page.
pub open spec fn trap_context_ready(t: Thread, m: PhysMemory, root: u64, args: Seq<u64>) -> bool {
    let n = args_count(args);
    let tcx = user_page(user_trap_context_start(t.tid as nat));
    let sa = user_page((user_stack_top(t.tid as nat) - 4096) as nat);
    &&& args.len() >= 2
    &&& user_trap_context_start(t.tid as nat) <= u64::MAX
    &&& user_stack_top(t.tid as nat) <= u64::MAX
    &&& kernel_stack_top(t.kern_stack.stack_id as nat) <= u64::MAX
    &&& path_in_memory(m, root, tcx as u64) && walk(m, root, tcx as u64).is_some()
    &&& m.has_frame(walk(m, root, tcx as u64).unwrap())
    &&& n > 0 ==> {
        &&& 8 * n + strings_len(args, n) <= 4096
        &&& path_in_memory(m, root, sa as u64) && walk(m, root, sa as u64).is_some()
    }
}

/// `sstatus` with its previous-privilege bit (SPP, bit 8) set to user
/// mode (0), so that `sret` goes to user mode.
pub open spec fn user_sstatus(sstatus: u64) -> u64 {
    sstatus & !0x100u64
}

/// The words of the context a new user thread starts with: the stack
/// pointer (`sp`) and `a1` point below the arguments, `a0` counts them,
/// and `sstatus` says the trap came from user mode.
pub open spec fn initial_words(t: Thread, root: u64, entry: u64, args: Seq<u64>, env: TrapEnv) -> Seq<u64> {
    let n = args_count(args);
    let sp = if n > 0 {
        user_stack_top(t.tid as nat) - 4096
    } else {
        user_stack_top(t.tid as nat) as int
    };
    Seq::new(
        32,
        |i: int|
            if i == 2 || i == 11 {
                sp as u64
            } else if i == 10 {
                n as u64
            } else {
                0u64
            },
    ) + seq![
        entry,
        user_sstatus(env.sstatus),
        kernel_stack_top(t.kern_stack.stack_id as nat) as u64,
        env.kernel_stap,
        (8u64 << 60u64) | root,
        env.trap_handler,
        user_trap_context_start(t.tid as nat) as u64,
    ]
}

impl Thread {
    /// Writes the thread's first trap context: it enters user mode at
    /// `entry_point` on its user stack, with the start-up arguments of
    /// `args` (after its first two words, pairs of address and length)
    /// counted in `a0` and placed, when there are any, in the page below
    /// the stack top, whose address goes to `a1` and the stack pointer.
    /// The context goes to the thread's trap-context page in the address
    /// space rooted at `root`, with `sstatus` saying the trap came from
    /// user mode; the arguments' placement comes back, for
    /// `place_start_args` to write them with the strings that
    /// `read_start_strings` reads.
    #[verifier::rlimit(30)]
    pub fn set_user_trap_context(
        &self,
        m: &mut PhysMemory,
        root: PhysPageNum,
        entry_point: u64,
        args: &Vec<u64>,
        env: TrapEnv,
    ) -> (r: Vec<StartArg>)
        requires
            trap_context_ready(*self, *old(m), root.0, args@),
        ensures
            final(m).base_ppn == old(m).base_ppn,
            ({
                let f = walk(*old(m), root.0, user_page(user_trap_context_start(self.tid as nat)) as u64).unwrap();
                let w = initial_words(*self, root.0, entry_point, args@, env);
                &&& forall|i: int| 0 <= i < 39 ==> #[trigger] final(m).word(f, i) == w[i]
                &&& forall|q: u64, j: int|
                    #![trigger final(m).word(q, j)]
                    old(m).has_frame(q) && 0 <= j < 512 && (q != f || j >= 39) ==> final(m).word(q, j)
                        == old(m).word(q, j)
            }),
            args_count(args@) == 0 ==> r@.len() == 0,
            args_count(args@) > 0 ==> r@ == arg_layout(
                args@,
                page_pa(*old(m), root.0, user_page((user_stack_top(self.tid as nat) - 4096) as nat)) as int,
                args_count(args@),
            ),
    {
        let tid = self.tid;
        let trap_vaddr = get_user_trap_context_start(tid);
        let trap_vpn = VirtualAddr::from(trap_vaddr).0 / 4096;
        proof {
            crate::mm::address::lemma_masks(trap_vaddr);
        }
        let trap_paddr = page_phys_addr(m, root, trap_vpn);
        let mut user_stack = get_user_stack_top(tid);
        let args_num = (args.len() - 2) / 2;
        let mut plan: Vec<StartArg> = Vec::new();
        if args_num > 0 {
            let ghost n = args_count(args@);
            proof {
                lemma_strings_len_mono(args@, 0, n);
            }
            let mut data_len: u64 = (args_num as u64) * 8;
            let mut i: usize = 0;
            while i < args_num
                invariant
                    args_num == n,
                    n > 0,
                    2 * n + 2 <= args@.len(),
                    8 * n + strings_len(args@, n) <= 4096,
                    i <= args_num,
                    data_len == 8 * n + strings_len(args@, i as nat),
                decreases args_num - i,
            {
                proof {
                    lemma_strings_len_mono(args@, (i + 1) as nat, n);
                }
                data_len = data_len + args[i * 2 + 2 + 1];
                i = i + 1;
            }
            let stack_args = user_stack - 4096;
            let args_vpn = VirtualAddr::from(stack_args).0 / 4096;
            proof {
                crate::mm::address::lemma_masks(stack_args);
            }
            proof {
                crate::mm::page_table::lemma_walk_bound(*m, root.0, args_vpn);
            }
            let base = page_phys_addr(m, root, args_vpn);
            let mut start_addr: u64 = base;
            let mut j: usize = 0;
            while j < args_num
                invariant
                    args_num == n,
                    2 * n + 2 <= args@.len(),
                    8 * n + strings_len(args@, n) <= 4096,
                    j <= args_num,
                    base < 0x1_0000_0000_0000_0000 - 0x2000,
                    start_addr == base + 9 * j + strings_len(args@, j as nat),
                    plan@ == arg_layout(args@, base as int, j as nat),
                decreases args_num - j,
            {
                proof {
                    lemma_strings_len_mono(args@, (j + 1) as nat, n);
                    lemma_strings_len_mono(args@, j as nat, n);
                }
                let string_buf = args[j * 2 + 2];
                let string_len = args[j * 2 + 2 + 1];
                let len_addr = start_addr;
                start_addr = start_addr + 8;
                plan.push(StartArg { len_addr, len: string_len, src: string_buf, dst: start_addr });
                start_addr = start_addr + string_len + 1;
                j = j + 1;
            }
            user_stack = stack_args;
        }
        let mut cr: [u64; 32] = [0u64; 32];
        cr[2] = user_stack;
        cr[10] = args_num as u64;
        cr[11] = user_stack;
        let ctx = TrapContext {
            cr,
            sepc: entry_point,
            sstatus: env.sstatus & !0x100u64,
            kernel_stack: get_kernel_stack_top(self.kern_stack.stack_id),
            kernel_stap: env.kernel_stap,
            user_stap: (8u64 << 60u64) | root.0,
            trap_handler: env.trap_handler,
            context_addr: trap_vaddr,
        };
        proof {
            assert(context_words(ctx) =~= initial_words(*self, root.0, entry_point, args@, env));
        }
        write_trap_context(m, trap_paddr / 4096, &ctx);
        plan
    }
}

/// The 8 little-endian bytes of `x`.
pub open spec fn le_word_bytes(x: u64) -> Seq<u8> {
    Seq::new(8, |i: int| ((x >> ((8 * i) as u64)) & 0xFF) as u8)
}

/// The bytes of start-up argument record `a` with string `s`: its length
/// as a word, then the string.
pub open spec fn record_bytes(a: StartArg, s: Seq<u8>) -> Seq<u8> {
    le_word_bytes(a.len) + s
}

/// The memory words `ws` (first frame `base`) after the first `n` records
/// of `plan` are written, in order, each from its length word's address
/// on, with the strings `strs`.
pub open spec fn records_written(ws: Seq<u64>, base: u64, plan: Seq<StartArg>, strs: Seq<Vec<u8>>, n: nat) -> Seq<u64>
    decreases n,
{
    if n == 0 {
        ws
    } else {
        let w = records_written(ws, base, plan, strs, (n - 1) as nat);
        let d = record_bytes(plan[n - 1], strs[n - 1]@);
        bytes_written(w, base, addrs_from(plan[n - 1].len_addr, d.len()), d, d.len())
    }
}

/// Records `plan` with strings `strs` can be written in memory `m`: one
/// string per record, of the record's length, and every byte of each
/// record in a frame of memory, below 2^64.
pub open spec fn records_fit(m: PhysMemory, plan: Seq<StartArg>, strs: Seq<Vec<u8>>) -> bool {
    &&& strs.len() == plan.len()
    &&& forall|k: int| 0 <= k < plan.len() ==> (#[trigger] strs[k])@.len() == plan[k].len
    &&& forall|k: int| 0 <= k < plan.len() ==> (#[trigger] plan[k]).len_addr + 8 + plan[k].len <= u64::MAX
    &&& forall|k: int, i: int|
        0 <= k < plan.len() && 0 <= i < 8 + plan[k].len ==> m.has_frame(#[trigger] byte_frame(plan[k].len_addr, i))
}

/// Writes the start-up argument records that `set_user_trap_context`
/// placed: for each, its length as a word and then its string, `strs`
/// holding the strings in order.
pub fn place_start_args(m: &mut PhysMemory, plan: &Vec<StartArg>, strs: &Vec<Vec<u8>>)
    requires
        records_fit(*old(m), plan@, strs@),
    ensures
        final(m).base_ppn == old(m).base_ppn,
        final(m).words@ == records_written(old(m).words@, old(m).base_ppn, plan@, strs@, plan@.len()),
{
    let ghost m0 = *m;
    let mut k: usize = 0;
    while k < plan.len()
        invariant
            k <= plan@.len(),
            records_fit(m0, plan@, strs@),
            m.base_ppn == m0.base_ppn,
            m.words@.len() == m0.words@.len(),
            m.words@ == records_written(m0.words@, m0.base_ppn, plan@, strs@, k as nat),
        decreases plan@.len() - k,
    {
        let a = plan[k];
        let s = &strs[k];
        proof {
            assert(s@.len() == a.len);
            assert(a.len_addr + 8 + a.len <= u64::MAX);
        }
        let mut d: Vec<u8> = Vec::new();
        let mut i: u64 = 0;
        while i < 8
            invariant
                i <= 8,
                d@ == le_word_bytes(a.len).take(i as int),
            decreases 8 - i,
        {
            d.push(((a.len >> (8 * i)) & 0xFF) as u8);
            proof {
                assert(d@ =~= le_word_bytes(a.len).take(i + 1));
            }
            i = i + 1;
        }
        let mut j: usize = 0;
        while j < s.len()
            invariant
                j <= s@.len(),
                d@ == le_word_bytes(a.len) + s@.take(j as int),
            decreases s@.len() - j,
        {
            d.push(s[j]);
            proof {
                assert(d@ =~= le_word_bytes(a.len) + s@.take(j + 1));
            }
            j = j + 1;
        }
        proof {
            assert(d@ =~= record_bytes(a, s@));
            assert forall|x: int| 0 <= x < d@.len() implies m.has_frame(#[trigger] byte_frame(a.len_addr, x)) by {
                assert(plan@[k as int] == a);
                assert(m0.has_frame(byte_frame(plan@[k as int].len_addr, x)));
            }
        }
        write_bytes_at(m, a.len_addr, &d);
        proof {
            assert(records_written(m0.words@, m0.base_ppn, plan@, strs@, (k + 1) as nat) == bytes_written(
                records_written(m0.words@, m0.base_ppn, plan@, strs@, k as nat),
                m0.base_ppn,
                addrs_from(a.len_addr, d@.len()),
                d@,
                d@.len(),
            ));
        }
        k = k + 1;
    }
}

/// The user string of `len` bytes at user address `src` in the address
/// space rooted at `root` can be read: it lies below 2^39, its pages are
/// mapped, and its pieces lie in memory.
pub open spec fn user_readable(m: PhysMemory, root: u64, src: u64, len: u64) -> bool {
    &&& va_of(src) + len < 0x80_0000_0000
    &&& buffer_mapped(m, root, va_of(src), len as nat)
    &&& pieces_in_memory(m, buffer_pieces(m, root, va_of(src), len as nat))
}

/// The bytes of the user string of `len` bytes at `src` in the address
/// space rooted at `root`, as `read_buff_to_kernel_slice` reads them.
pub open spec fn user_bytes(m: PhysMemory, root: u64, src: u64, len: u64) -> Seq<u8> {
    let addrs = piece_addrs(buffer_pieces(m, root, va_of(src), len as nat));
    let n = if len < addrs.len() { len as nat } else { addrs.len() };
    Seq::new(n, |i: int| byte_of(m.words@, m.base_ppn, addrs[i]))
}

/// Reads the strings of the start-up arguments of `args` (after its first
/// two words, pairs of user address and length) from the address space
/// rooted at `src_root`, in order.
pub fn read_start_strings(m: &PhysMemory, src_root: PhysPageNum, args: &Vec<u64>) -> (r: Vec<Vec<u8>>)
    requires
        args@.len() >= 2,
        forall|k: int|
            0 <= k < args_count(args@) ==> #[trigger] user_readable(*m, src_root.0, args@[2 * k + 2], args@[2 * k + 3]),
    ensures
        r@.len() == args_count(args@),
        forall|k: int|
            0 <= k < args_count(args@) ==> (#[trigger] r@[k])@ == user_bytes(*m, src_root.0, args@[2 * k + 2], args@[2 * k + 3]),
{
    let alen: usize = args.len();
    let n: usize = (alen - 2) / 2;
    proof {
        assert(n == args_count(args@));
        assert(2 * n + 2 <= args@.len());
    }
    let mut r: Vec<Vec<u8>> = Vec::new();
    let mut k: usize = 0;
    while k < n
        invariant
            n == args_count(args@),
            args@.len() >= 2,
            2 * n + 2 <= args@.len(),
            alen == args@.len(),
            k <= n,
            r@.len() == k,
            forall|q: int| 0 <= q < n ==> #[trigger] user_readable(*m, src_root.0, args@[2 * q + 2], args@[2 * q + 3]),
            forall|q: int| 0 <= q < k ==> (#[trigger] r@[q])@ == user_bytes(*m, src_root.0, args@[2 * q + 2], args@[2 * q + 3]),
        decreases n - k,
    {
        let src = args[2 * k + 2];
        let len = args[2 * k + 3];
        proof {
            assert(user_readable(*m, src_root.0, args@[2 * k + 2], args@[2 * k + 3]));
        }
        let ub = UserBuffer::new(m, src_root, src, len);
        let bytes = ub.read_buff_to_kernel_slice(m, len);
        proof {
            assert(bytes@ =~= user_bytes(*m, src_root.0, src, len));
        }
        let ghost r0 = r@;
        r.push(bytes);
        proof {
            assert forall|q: int| 0 <= q < k + 1 implies (#[trigger] r@[q])@ == user_bytes(*m, src_root.0, args@[2 * q + 2], args@[2 * q + 3]) by {
                if q < k {
                    assert(r@[q] == r0[q]);
                }
            }
        }
        k = k + 1;
    }
    r
}

/// Writes `c` to the first 39 words of frame `f`.
fn write_trap_context(m: &mut PhysMemory, f: u64, c: &TrapContext)
    requires
        old(m).has_frame(f),
    ensures
        final(m).base_ppn == old(m).base_ppn,
        forall|i: int| 0 <= i < 39 ==> #[trigger] final(m).word(f, i) == context_words(*c)[i],
        forall|q: u64, j: int|
            #![trigger final(m).word(q, j)]
            old(m).has_frame(q) && 0 <= j < 512 && (q != f || j >= 39) ==> final(m).word(q, j) == old(
                m,
            ).word(q, j),
{
    let words: [u64; 7] = [c.sepc, c.sstatus, c.kernel_stack, c.kernel_stap, c.user_stap, c.trap_handler, c.context_addr];
    let mut i: usize = 0;
    while i < 39
        invariant
            i <= 39,
            m.has_frame(f),
            m.base_ppn == old(m).base_ppn,
            m.words@.len() == old(m).words@.len(),
            words@ == seq![c.sepc, c.sstatus, c.kernel_stack, c.kernel_stap, c.user_stap, c.trap_handler, c.context_addr],
            forall|k: int| 0 <= k < i ==> #[trigger] m.word(f, k) == context_words(*c)[k],
            forall|q: u64, j: int|
                #![trigger m.word(q, j)]
                old(m).has_frame(q) && 0 <= j < 512 && (q != f || j >= i) ==> m.word(q, j) == old(m).word(q, j),
        decreases 39 - i,
    {
        let v = if i < 32 {
            c.cr[i]
        } else {
            words[i - 32]
        };
        let ghost before = *m;
        m.write_word(f, i, v);
        proof {
            crate::mm::page_table::lemma_write_word_effect(before, *m, f, i as int, v);
        }
        i = i + 1;
    }
}

/// Where in its page the trap context is saved while a signal handler
/// runs: half a page (256 words) after the context itself.
pub const SIGNAL_SAVE_OFFSET: usize = 256;

/// Copies `n` words of frame `f` from word `from` on to word `to` on; the
/// two ranges must not overlap.
fn copy_words(m: &mut PhysMemory, f: u64, from: usize, to: usize, n: usize)
    requires
        old(m).has_frame(f),
        from + n <= 512,
        to + n <= 512,
        from + n <= to || to + n <= from,
    ensures
        final(m).base_ppn == old(m).base_ppn,
        final(m).words@.len() == old(m).words@.len(),
        forall|i: int| 0 <= i < n ==> #[trigger] final(m).word(f, to + i) == old(m).word(f, from + i),
        forall|q: u64, j: int|
            #![trigger final(m).word(q, j)]
            old(m).has_frame(q) && 0 <= j < 512 && (q != f || j < to || j >= to + n) ==> final(m).word(q, j)
                == old(m).word(q, j),
{
    let mut i: usize = 0;
    while i < n
        invariant
            i <= n,
            from + n <= 512,
            to + n <= 512,
            from + n <= to || to + n <= from,
            m.has_frame(f),
            m.base_ppn == old(m).base_ppn,
            m.words@.len() == old(m).words@.len(),
            forall|k: int| 0 <= k < i ==> #[trigger] m.word(f, to + k) == old(m).word(f, from + k),
            forall|q: u64, j: int|
                #![trigger m.word(q, j)]
                old(m).has_frame(q) && 0 <= j < 512 && (q != f || j < to || j >= to + i) ==> m.word(q, j)
                    == old(m).word(q, j),
        decreases n - i,
    {
        let v = m.read_word(f, from + i);
        let ghost before = *m;
        m.write_word(f, to + i, v);
        proof {
            crate::mm::page_table::lemma_write_word_effect(before, *m, f, (to + i) as int, v);
            assert forall|k: int| 0 <= k < i + 1 implies #[trigger] m.word(f, to + k) == old(m).word(f, from + k) by {
                if k < i {
                    assert(m.word(f, to + k) == before.word(f, to + k));
                }
            }
        }
        i = i + 1;
    }
}

/// `b` is `a` after entering a signal handler with frame `f` as the trap
/// context page: the first 39 words are saved 256 words on, then word 32
/// (`sepc`) is `handler` and word 10 (`a0`) is `signum`; nothing else
/// changes.
pub open spec fn signal_entered(a: PhysMemory, b: PhysMemory, f: u64, handler: u64, signum: u64) -> bool {
    &&& b.base_ppn == a.base_ppn
    &&& b.words@.len() == a.words@.len()
    &&& forall|i: int| 0 <= i < 39 ==> #[trigger] b.word(f, 256 + i) == a.word(f, i)
    &&& b.word(f, 32) == handler
    &&& b.word(f, 10) == signum
    &&& forall|i: int| 0 <= i < 39 && i != 32 && i != 10 ==> #[trigger] b.word(f, i) == a.word(f, i)
    &&& forall|q: u64, j: int|
        #![trigger b.word(q, j)]
        a.has_frame(q) && 0 <= j < 512 && (q != f || (39 <= j < 256) || j >= 295) ==> b.word(q, j) == a.word(q, j)
}

/// `b` is `a` after leaving a signal handler with frame `f` as the trap
/// context page: the 39 words saved 256 words on are copied back; nothing
/// else changes.
pub open spec fn signal_left(a: PhysMemory, b: PhysMemory, f: u64) -> bool {
    &&& b.base_ppn == a.base_ppn
    &&& b.words@.len() == a.words@.len()
    &&& forall|i: int| 0 <= i < 39 ==> #[trigger] b.word(f, i) == a.word(f, 256 + i)
    &&& forall|q: u64, j: int|
        #![trigger b.word(q, j)]
        a.has_frame(q) && 0 <= j < 512 && (q != f || j >= 39) ==> b.word(q, j) == a.word(q, j)
}

/// Enters a signal handler: the trap context in the first 39 words of
/// frame `f` is saved half a page further on, then it is set to resume
/// at `handler` (word 32, `sepc`) with `signum` as the first argument
/// (word 10, `a0`).
pub fn save_for_signal(m: &mut PhysMemory, f: u64, handler: u64, signum: u64)
    requires
        old(m).has_frame(f),
    ensures
        signal_entered(*old(m), *final(m), f, handler, signum),
{
    copy_words(m, f, 0, SIGNAL_SAVE_OFFSET, 39);
    let ghost m1 = *m;
    m.write_word(f, 32, handler);
    proof {
        crate::mm::page_table::lemma_write_word_effect(m1, *m, f, 32, handler);
    }
    let ghost m2 = *m;
    m.write_word(f, 10, signum);
    proof {
        crate::mm::page_table::lemma_write_word_effect(m2, *m, f, 10, signum);
        assert forall|i: int| 0 <= i < 39 implies #[trigger] m.word(f, 256 + i) == old(m).word(f, i) by {
            assert(m.word(f, 256 + i) == m2.word(f, 256 + i));
            assert(m2.word(f, 256 + i) == m1.word(f, 256 + i));
        }
        assert forall|i: int| 0 <= i < 39 && i != 32 && i != 10 implies #[trigger] m.word(f, i) == old(m).word(f, i) by {
            assert(m.word(f, i) == m2.word(f, i));
            assert(m2.word(f, i) == m1.word(f, i));
        }
    }
}

/// Leaves a signal handler: the trap context saved half a page on in
/// frame `f` is copied back over the first 39 words, and its `a0` (word
/// 10) is returned.
pub fn restore_after_signal(m: &mut PhysMemory, f: u64) -> (r: u64)
    requires
        old(m).has_frame(f),
    ensures
        signal_left(*old(m), *final(m), f),
        r == old(m).word(f, 266),
{
    copy_words(m, f, SIGNAL_SAVE_OFFSET, 0, 39);
    proof {
        assert forall|i: int| 0 <= i < 39 implies #[trigger] m.word(f, i) == old(m).word(f, 256 + i) by {
            assert(m.word(f, 0 + i) == old(m).word(f, 256 + i));
        }
        assert(m.word(f, 10) == old(m).word(f, 256 + 10int));
    }
    m.read_word(f, 10)
}

/// Entering a signal handler and then leaving it gives back the trap
/// context as it was, and the `a0` it held.
pub proof fn lemma_signal_round_trip(a: PhysMemory, b: PhysMemory, c: PhysMemory, f: u64, handler: u64, signum: u64, r: u64)
    requires
        signal_entered(a, b, f, handler, signum),
        signal_left(b, c, f),
        r == b.word(f, 266),
    ensures
        forall|i: int| 0 <= i < 39 ==> #[trigger] c.word(f, i) == a.word(f, i),
        r == a.word(f, 10),
{
    assert forall|i: int| 0 <= i < 39 implies #[trigger] c.word(f, i) == a.word(f, i) by {
        assert(c.word(f, i) == b.word(f, 256 + i));
        assert(b.word(f, 256 + i) == a.word(f, i));
    }
    assert(b.word(f, 256 + 10int) == a.word(f, 10));
}

/// The page of thread `t`'s trap context.
pub open spec fn context_page(t: Thread) -> u64 {
    user_page(user_trap_context_start(t.tid as nat)) as u64
}

/// Thread `t`'s trap-context page is mapped to a frame of memory in the
/// address space rooted at `root`.
pub open spec fn context_page_ready(t: Thread, m: PhysMemory, root: u64) -> bool {
    &&& user_trap_context_start(t.tid as nat) <= u64::MAX
    &&& path_in_memory(m, root, context_page(t))
    &&& walk(m, root, context_page(t)).is_some()
    &&& m.has_frame(walk(m, root, context_page(t)).unwrap())
}

/// The frame that holds thread `t`'s trap context.
pub open spec fn context_frame(t: Thread, m: PhysMemory, root: u64) -> u64 {
    walk(m, root, context_page(t)).unwrap()
}

impl Thread {
    /// The frame of the thread's trap-context page.
    fn context_frame_exec(&self, m: &PhysMemory, root: PhysPageNum) -> (r: u64)
        requires
            context_page_ready(*self, *m, root.0),
        ensures
            r == context_frame(*self, *m, root.0),
    {
        let trap_vaddr = get_user_trap_context_start(self.tid);
        proof {
            crate::mm::address::lemma_masks(trap_vaddr);
        }
        let vpn = VirtualAddr::from(trap_vaddr).0 / 4096;
        do_table_walk_in_4k(m, root, VirtPageNum(vpn)).unwrap().0
    }

    /// Makes the thread a forked child's: its trap context (in the address
    /// space rooted at `root`) returns `ret`, and records the context's own
    /// user address, the thread's kernel stack top and the address
    /// space's `satp`.
    pub fn set_fork_data(&self, m: &mut PhysMemory, root: PhysPageNum, ret: u64)
        requires
            context_page_ready(*self, *old(m), root.0),
            kernel_stack_top(self.kern_stack.stack_id as nat) <= u64::MAX,
        ensures
            ({
                let f = context_frame(*self, *old(m), root.0);
                &&& final(m).base_ppn == old(m).base_ppn
                &&& final(m).words@ == old(m).words@.update(old(m).pos(f, 10), ret).update(
                    old(m).pos(f, 38),
                    user_trap_context_start(self.tid as nat) as u64,
                ).update(old(m).pos(f, 34), kernel_stack_top(self.kern_stack.stack_id as nat) as u64).update(
                    old(m).pos(f, 36),
                    (8u64 << 60u64) | root.0,
                )
            }),
    {
        let f = self.context_frame_exec(m, root);
        m.write_word(f, 10, ret);
        m.write_word(f, 38, get_user_trap_context_start(self.tid));
        m.write_word(f, 34, get_kernel_stack_top(self.kern_stack.stack_id));
        m.write_word(f, 36, (8u64 << 60u64) | root.0);
    }

    /// Gives a new thread its start function (`a0`) and argument (`a1`) in
    /// its trap context.
    pub fn set_extra_thread_args(&self, m: &mut PhysMemory, root: PhysPageNum, start_func: u64, arg_addr: u64)
        requires
            context_page_ready(*self, *old(m), root.0),
        ensures
            ({
                let f = context_frame(*self, *old(m), root.0);
                &&& final(m).base_ppn == old(m).base_ppn
                &&& final(m).words@ == old(m).words@.update(old(m).pos(f, 10), start_func).update(
                    old(m).pos(f, 11),
                    arg_addr,
                )
            }),
    {
        let f = self.context_frame_exec(m, root);
        m.write_word(f, 10, start_func);
        m.write_word(f, 11, arg_addr);
    }

    /// Writes a system call's result to `a0` of the thread's trap context.
    pub fn write_syscall_return_value(&self, m: &mut PhysMemory, root: PhysPageNum, value: u64)
        requires
            context_page_ready(*self, *old(m), root.0),
        ensures
            final(m).base_ppn == old(m).base_ppn,
            final(m).words@ == old(m).words@.update(old(m).pos(context_frame(*self, *old(m), root.0), 10), value),
    {
        let f = self.context_frame_exec(m, root);
        m.write_word(f, 10, value);
    }

    /// Reads `a0` of the thread's trap context.
    pub fn read_syscall_return_value(&self, m: &PhysMemory, root: PhysPageNum) -> (r: u64)
        requires
            context_page_ready(*self, *m, root.0),
        ensures
            r == m.word(context_frame(*self, *m, root.0), 10),
    {
        let f = self.context_frame_exec(m, root);
        m.read_word(f, 10)
    }
}

} // verus!
