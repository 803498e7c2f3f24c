//! The network, as a user program sees it.
use vstd::prelude::*;
use crate::syscall::{SYSCALL_ACCEPT, SYSCALL_CONNECT, SYSCALL_LISTEN};
use crate::user::syscall::{SyscallRequest, request, syscall_accept, syscall_connect, syscall_listen};

verus! {

/// Opens a UDP socket from port `sport` to port `dport` of address `ip`.
pub fn connect(ip: u32, sport: u16, dport: u16) -> (r: SyscallRequest)
    ensures
        r == request(SYSCALL_CONNECT, ip as usize, sport as usize, dport as usize),
{
    syscall_connect(ip, sport, dport)
}

/// Listens on port `sport`.
pub fn listen(sport: u16) -> (r: SyscallRequest)
    ensures
        r == request(SYSCALL_LISTEN, sport as usize, 0, 0),
{
    syscall_listen(sport)
}

/// Accepts a connection on port `socket_fd`.
pub fn accept(socket_fd: usize) -> (r: SyscallRequest)
    ensures
        r == request(SYSCALL_ACCEPT, socket_fd, 0, 0),
{
    syscall_accept(socket_fd)
}

} // verus!
