//! System calls on files: open, close, duplicate, read, write, pipes.
use vstd::prelude::*;
use crate::fs::{FileRef, file_readable, file_writable};
use crate::fs::pipe::get_dual_pipe_file;
use crate::task::manager::{Kernel, only_proc_changed};
use crate::task::process::{
    Process,
    OS_MAX_FILE_DESCRIPTOR_NUM,
    dup_fd_post,
    has_free,
    remove_fd_post,
    set_fd_post,
};
use crate::task::tables::fd_table_view;

verus! {

/// The open files of the running task's process.
pub open spec fn cur_fds(k: Kernel) -> Map<usize, FileRef> {
    fd_table_view(k.cur_proc().fd_table)
}

/// The running task's process can open one more file.
pub open spec fn can_open(k: Kernel) -> bool {
    k.has_current() && has_free(cur_fds(k), OS_MAX_FILE_DESCRIPTOR_NUM as nat)
}

/// Two numbers below `bound` have no entry in `m`.
pub open spec fn has_two_free<V>(m: Map<usize, V>, bound: nat) -> bool {
    exists|a: usize, b: usize| a < bound && b < bound && a != b && !m.contains_key(a) && !m.contains_key(b)
}

/// What a read (or, with `write`, a write) of `len` bytes from descriptor
/// `fd` decides: -2 for nothing to move, -1 when `fd` is not open or not
/// open that way, and otherwise the file.
pub open spec fn access_decision(k: Kernel, fd: usize, len: usize, write: bool) -> Result<FileRef, isize> {
    if len == 0 {
        Err(-2isize)
    } else if !cur_fds(k).contains_key(fd) {
        Err(-1isize)
    } else if (if write {
        file_writable(cur_fds(k)[fd])
    } else {
        file_readable(cur_fds(k)[fd])
    }) {
        Ok(cur_fds(k)[fd])
    } else {
        Err(-1isize)
    }
}

/// What a read decides.
pub open spec fn read_decision(k: Kernel, fd: usize, len: usize) -> Result<FileRef, isize> {
    access_decision(k, fd, len, false)
}

/// What a write decides.
pub open spec fn write_decision(k: Kernel, fd: usize, len: usize) -> Result<FileRef, isize> {
    access_decision(k, fd, len, true)
}

/// A read of at least one byte from an open descriptor goes on to its file
/// when the file is the console's input, a TCP connection, a UDP socket,
/// a pipe's read end or a file opened for reading; a write likewise when
/// it is the console's output, a connection, a socket, a pipe's write end
/// or a file opened for writing.
pub proof fn lemma_access_goes_on(k: Kernel, fd: usize, len: usize)
    requires
        len > 0,
        cur_fds(k).contains_key(fd),
    ensures
        ({
            let f = cur_fds(k)[fd];
            &&& (f is Stdin || f is Socket || f is Udp || (f matches FileRef::Pipe(p) && p.readable) || (
            f matches FileRef::Inode { readable, .. } && readable)) ==> read_decision(k, fd, len) == Ok::<FileRef, isize>(f)
            &&& (f is Stdout || f is Socket || f is Udp || (f matches FileRef::Pipe(p) && p.writable) || (
            f matches FileRef::Inode { writable, .. } && writable)) ==> write_decision(k, fd, len) == Ok::<FileRef, isize>(f)
            &&& (f is Stdout || f is Port) ==> read_decision(k, fd, len) == Err::<FileRef, isize>(-1isize)
            &&& (f is Stdin || f is Port) ==> write_decision(k, fd, len) == Err::<FileRef, isize>(-1isize)
        }),
{
}

/// Registers `file`, which the file system opened (`None` when it could
/// not), in the running task's process: returns the new descriptor, or -1.
pub fn syscall_open(k: &mut Kernel, file: Option<FileRef>) -> (r: isize)
    requires
        can_open(*old(k)),
    ensures
        file.is_none() ==> r == -1 && *final(k) == *old(k),
        file.is_some() ==> only_proc_changed(*old(k), *final(k), old(k).cur_pid())
            && r >= 0 && set_fd_post(
            old(k).cur_proc(),
            final(k).procs()[old(k).cur_pid()],
            file.unwrap(),
            r as usize,
        ),
{
    match file {
        Some(f) => {
            let pid = k.get_current_task().to_pid();
            let fd = k.set_new_fd(pid, f);
            fd as isize
        },
        None => -1,
    }
}

/// Closes descriptor `fd` of the running task's process: 0, or -1 when it
/// is not open.
pub fn syscall_close(k: &mut Kernel, fd: usize) -> (r: isize)
    requires
        old(k).has_current(),
    ensures
        only_proc_changed(*old(k), *final(k), old(k).cur_pid()),
        remove_fd_post(old(k).cur_proc(), final(k).procs()[old(k).cur_pid()], fd, r),
{
    let pid = k.get_current_task().to_pid();
    k.remove_fd(pid, fd)
}

/// Opens the file of descriptor `fd` again on the smallest free
/// descriptor, which is returned; -1 when `fd` is not open.
pub fn syscall_dup(k: &mut Kernel, fd: usize) -> (r: isize)
    requires
        old(k).has_current(),
        cur_fds(*old(k)).contains_key(fd) ==> has_free(cur_fds(*old(k)), OS_MAX_FILE_DESCRIPTOR_NUM as nat),
    ensures
        only_proc_changed(*old(k), *final(k), old(k).cur_pid()),
        dup_fd_post(old(k).cur_proc(), final(k).procs()[old(k).cur_pid()], fd, r),
{
    let pid = k.get_current_task().to_pid();
    k.dup_fd(pid, fd)
}

/// Decides a read of `len` bytes from descriptor `fd`: -2 for an empty
/// read, -1 when `fd` is not open or cannot be read, and otherwise the file
/// to read from.
pub fn syscall_read(k: &Kernel, fd: usize, len: usize) -> (r: Result<FileRef, isize>)
    requires
        k.has_current(),
    ensures
        r == read_decision(*k, fd, len),
{
    if len == 0 {
        return Err(-2);
    }
    let pid = k.get_current_task().to_pid();
    match k.find_file_by_fd(pid, fd) {
        Some(file) => {
            if !file.readable() {
                return Err(-1);
            }
            Ok(file)
        },
        None => Err(-1),
    }
}

/// Decides a write of `len` bytes to descriptor `fd`: -2 for an empty
/// write, -1 when `fd` is not open or cannot be written, and otherwise the
/// file to write to.
pub fn syscall_write(k: &Kernel, fd: usize, len: usize) -> (r: Result<FileRef, isize>)
    requires
        k.has_current(),
    ensures
        r == write_decision(*k, fd, len),
{
    if len == 0 {
        return Err(-2);
    }
    let pid = k.get_current_task().to_pid();
    match k.find_file_by_fd(pid, fd) {
        Some(file) => {
            if !file.writable() {
                return Err(-1);
            }
            Ok(file)
        },
        None => Err(-1),
    }
}

/// The read end (`read`) or the write end of the pipe whose buffer is
/// `buffer`.
pub open spec fn pipe_end(buffer: usize, read: bool) -> FileRef {
    FileRef::Pipe(crate::fs::pipe::Pipe { readable: read, writable: !read, buffer })
}

/// Process `b` is `a` with the read end of pipe `buffer` opened on `rfd`
/// and then its write end on `wfd`, each on the smallest free descriptor.
pub open spec fn pipe_fds_post(a: Process, b: Process, buffer: usize, rfd: usize, wfd: usize) -> bool {
    exists|p1: Process|
        #[trigger] set_fd_post(a, p1, pipe_end(buffer, true), rfd) && set_fd_post(
            p1,
            b,
            pipe_end(buffer, false),
            wfd,
        )
}

/// Makes a pipe for the running task's process: both ends get the
/// smallest free descriptors, read end first. Returns 0 and the two
/// descriptors, to be written to the caller.
pub fn syscall_pipe(k: &mut Kernel) -> (r: (isize, usize, usize))
    requires
        old(k).has_current(),
        has_two_free(cur_fds(*old(k)), OS_MAX_FILE_DESCRIPTOR_NUM as nat),
        old(k).pipes@.len() < usize::MAX,
    ensures
        r.0 == 0,
        final(k).pipes@.len() == old(k).pipes@.len() + 1,
        final(k).pipes@.drop_last() == old(k).pipes@,
        final(k).pipes@.last().is_some(),
        final(k).pipes@.last().unwrap().contents() == Seq::<u8>::empty(),
        final(k).procs().dom() == old(k).procs().dom(),
        pipe_fds_post(
            old(k).cur_proc(),
            final(k).procs()[old(k).cur_pid()],
            old(k).pipes@.len() as usize,
            r.1,
            r.2,
        ),
{
    let (pipe_read, pipe_write) = get_dual_pipe_file(&mut k.pipes);
    let pid = k.get_current_task().to_pid();
    let ghost m = cur_fds(*k);
    let read_fd = k.set_new_fd(pid, pipe_read);
    let ghost p1 = k.procs()[pid];
    proof {
        let (a, b) = choose|a: usize, b: usize|
            a < OS_MAX_FILE_DESCRIPTOR_NUM && b < OS_MAX_FILE_DESCRIPTOR_NUM && a != b && !m.contains_key(a)
                && !m.contains_key(b);
        let m2 = fd_table_view(k.procs()[pid].fd_table);
        if a != read_fd {
            assert(!m2.contains_key(a));
        } else {
            assert(!m2.contains_key(b));
        }
    }
    let write_fd = k.set_new_fd(pid, pipe_write);
    proof {
        let b = old(k).pipes@.len() as usize;
        assert(pipe_read == pipe_end(b, true));
        assert(pipe_write == pipe_end(b, false));
        assert(set_fd_post(old(k).cur_proc(), p1, pipe_end(b, true), read_fd));
        assert(set_fd_post(p1, k.procs()[pid], pipe_end(b, false), write_fd));
        assert(pid == old(k).cur_pid());
    }
    (0, read_fd, write_fd)
}

} // verus!
