//! Open files: standard input and output, pipe ends, sockets and files of
//! the file system.
use vstd::prelude::*;
use crate::fs::pipe::Pipe;

pub mod pipe;
pub mod stdio;

verus! {

/// What a file descriptor refers to.
#[derive(Copy, Clone, PartialEq, Eq, Structural)]
pub enum FileRef {
    /// the console's input
    Stdin,
    /// the console's output
    Stdout,
    /// one end of a pipe
    Pipe(Pipe),
    /// a TCP connection, by its index in the socket table
    Socket(usize),
    /// a UDP socket to remote address `raddr`, from local port `lport` to
    /// remote port `rport`
    Udp { raddr: u32, lport: u16, rport: u16 },
    /// a listening port, by its index in the port table
    Port(usize),
    /// a file of the file system, by its inode, opened for reading and/or
    /// writing
    Inode { inode: usize, readable: bool, writable: bool },
}

/// Whether a descriptor of `f` can be read.
pub open spec fn file_readable(f: FileRef) -> bool {
    match f {
        FileRef::Stdin => true,
        FileRef::Stdout => false,
        FileRef::Pipe(p) => p.readable,
        FileRef::Socket(_) => true,
        FileRef::Udp { .. } => true,
        FileRef::Port(_) => false,
        FileRef::Inode { readable, .. } => readable,
    }
}

/// Whether a descriptor of `f` can be written.
pub open spec fn file_writable(f: FileRef) -> bool {
    match f {
        FileRef::Stdin => false,
        FileRef::Stdout => true,
        FileRef::Pipe(p) => p.writable,
        FileRef::Socket(_) => true,
        FileRef::Udp { .. } => true,
        FileRef::Port(_) => false,
        FileRef::Inode { writable, .. } => writable,
    }
}

/// Which files can be read and written: the console's input is read
/// only and its output write only; a pipe end is read or written as it was
/// made; a TCP connection and a UDP socket are both; a listening port is
/// neither; a file of the file system is as it was opened.
pub proof fn lemma_file_access(p: Pipe, i: usize, raddr: u32, lport: u16, rport: u16, inode: usize, rd: bool, wr: bool)
    ensures
        file_readable(FileRef::Stdin) && !file_writable(FileRef::Stdin),
        !file_readable(FileRef::Stdout) && file_writable(FileRef::Stdout),
        file_readable(FileRef::Pipe(p)) == p.readable && file_writable(FileRef::Pipe(p)) == p.writable,
        file_readable(FileRef::Socket(i)) && file_writable(FileRef::Socket(i)),
        file_readable(FileRef::Udp { raddr, lport, rport }) && file_writable(FileRef::Udp { raddr, lport, rport }),
        !file_readable(FileRef::Port(i)) && !file_writable(FileRef::Port(i)),
        file_readable(FileRef::Inode { inode, readable: rd, writable: wr }) == rd,
        file_writable(FileRef::Inode { inode, readable: rd, writable: wr }) == wr,
{
}

impl FileRef {
    /// Whether the file can be read.
    pub fn readable(&self) -> (r: bool)
        ensures
            r == file_readable(*self),
    {
        match self {
            FileRef::Stdin => true,
            FileRef::Stdout => false,
            FileRef::Pipe(p) => p.readable,
            FileRef::Socket(_) => true,
            FileRef::Udp { .. } => true,
            FileRef::Port(_) => false,
            FileRef::Inode { readable, .. } => *readable,
        }
    }

    /// Whether the file can be written.
    pub fn writable(&self) -> (r: bool)
        ensures
            r == file_writable(*self),
    {
        match self {
            FileRef::Stdin => false,
            FileRef::Stdout => true,
            FileRef::Pipe(p) => p.writable,
            FileRef::Socket(_) => true,
            FileRef::Udp { .. } => true,
            FileRef::Port(_) => false,
            FileRef::Inode { writable, .. } => *writable,
        }
    }
}

} // verus!
