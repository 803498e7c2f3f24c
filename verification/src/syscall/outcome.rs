//! The outcomes of system calls that are writes to user memory, done on
//! the caller's address space.
use vstd::prelude::*;
use crate::mm::address::PhysPageNum;
use crate::mm::memory_set::{UserBuffer, buffer_pieces, bytes_written, piece_addrs, va_of};
use crate::mm::page_table::PhysMemory;
use crate::syscall::SyscallOutcome;
use crate::task::trap_context::user_readable;

verus! {

/// The `n` lowest bytes of `x`, little-endian.
pub open spec fn le_bytes_of(x: u64, n: nat) -> Seq<u8> {
    Seq::new(n, |i: int| ((x >> ((8 * i) as u64)) & 0xFF) as u8)
}

/// What outcome `o` writes to user memory: the user address, the bytes
/// and the call's value. An exit code goes as a 32-bit number, the two
/// descriptors of a pipe as two machine words; other outcomes write no
/// user memory here.
pub open spec fn outcome_bytes(o: SyscallOutcome) -> Option<(usize, Seq<u8>, isize)> {
    match o {
        SyscallOutcome::WriteExitCode { ptr, code, ret } => Some((ptr, le_bytes_of(code as u32 as u64, 4), ret)),
        SyscallOutcome::WritePipeFds { ptr, read_fd, write_fd } => Some(
            (ptr, le_bytes_of(read_fd as u64, 8) + le_bytes_of(write_fd as u64, 8), 0),
        ),
        _ => None,
    }
}

/// Appends the `n` lowest bytes of `x` to `v`, little-endian.
fn push_le(v: &mut Vec<u8>, x: u64, n: u64)
    requires
        n <= 8,
    ensures
        final(v)@ == old(v)@ + le_bytes_of(x, n as nat),
{
    let mut i: u64 = 0;
    while i < n
        invariant
            i <= n,
            n <= 8,
            v@ == old(v)@ + le_bytes_of(x, i as nat),
        decreases n - i,
    {
        let ghost before = v@;
        v.push(((x >> (8 * i)) & 0xFF) as u8);
        proof {
            assert(v@ =~= old(v)@ + le_bytes_of(x, (i + 1) as nat));
        }
        i = i + 1;
    }
}

/// Does what outcome `o` leaves to do on user memory, in the address
/// space rooted at `root`: writes the exit code of a collected child, or
/// the two descriptors of a new pipe, at the user address the call gave,
/// and returns the call's value. `None`, with memory unchanged, for an
/// outcome that is no such write.
pub fn perform_memory_outcome(m: &mut PhysMemory, root: PhysPageNum, o: &SyscallOutcome) -> (r: Option<isize>)
    requires
        match outcome_bytes(*o) {
            Some(w) => user_readable(*old(m), root.0, w.0 as u64, w.1.len() as u64),
            None => true,
        },
    ensures
        match outcome_bytes(*o) {
            None => r is None && *final(m) == *old(m),
            Some(w) => {
                let addrs = piece_addrs(buffer_pieces(*old(m), root.0, va_of(w.0 as u64), w.1.len()));
                let n = if w.1.len() < addrs.len() { w.1.len() } else { addrs.len() };
                &&& r == Some(w.2)
                &&& final(m).base_ppn == old(m).base_ppn
                &&& final(m).words@ == bytes_written(old(m).words@, old(m).base_ppn, addrs, w.1, n)
            },
        },
{
    let mut data: Vec<u8> = Vec::new();
    let (ptr, ret) = match o {
        SyscallOutcome::WriteExitCode { ptr, code, ret } => {
            push_le(&mut data, *code as u32 as u64, 4);
            (*ptr, *ret)
        },
        SyscallOutcome::WritePipeFds { ptr, read_fd, write_fd } => {
            push_le(&mut data, *read_fd as u64, 8);
            push_le(&mut data, *write_fd as u64, 8);
            (*ptr, 0isize)
        },
        _ => {
            return None;
        },
    };
    proof {
        assert(data@ =~= outcome_bytes(*o).unwrap().1);
    }
    let ub = UserBuffer::new(m, root, ptr as u64, data.len() as u64);
    ub.write_kernel_slice_to_user(m, data.as_slice());
    Some(ret)
}

} // verus!
