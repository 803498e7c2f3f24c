//! System calls on the network: UDP sockets and listening ports.
use vstd::prelude::*;
use crate::fs::FileRef;
use crate::syscall::fs::can_open;
use crate::task::manager::{Kernel, only_proc_changed};
use crate::task::process::set_fd_post;

verus! {

/// Opens a UDP socket from local port `lport` to port `rport` of address
/// `raddr` in the running task's process; returns its descriptor.
pub fn syscall_connect(k: &mut Kernel, raddr: u32, lport: u16, rport: u16) -> (r: isize)
    requires
        can_open(*old(k)),
    ensures
        only_proc_changed(*old(k), *final(k), old(k).cur_pid()),
        r >= 0,
        set_fd_post(
            old(k).cur_proc(),
            final(k).procs()[old(k).cur_pid()],
            FileRef::Udp { raddr, lport, rport },
            r as usize,
        ),
{
    let pid = k.get_current_task().to_pid();
    let fd = k.set_new_fd(pid, FileRef::Udp { raddr, lport, rport });
    fd as isize
}

/// Registers a listening port: `listened` is the index the port table gave
/// it (`None` when the port could not be listened on). The port is opened
/// as a descriptor of the running task's process, and the index (not the
/// descriptor) is returned; -1 when there is none.
pub fn syscall_listen(k: &mut Kernel, listened: Option<usize>) -> (r: isize)
    requires
        can_open(*old(k)),
    ensures
        listened.is_none() ==> r == -1 && *final(k) == *old(k),
        listened.is_some() ==> r == listened.unwrap() as isize
            && only_proc_changed(*old(k), *final(k), old(k).cur_pid())
            && exists|fd: usize|
            #[trigger] set_fd_post(
                old(k).cur_proc(),
                final(k).procs()[old(k).cur_pid()],
                FileRef::Port(listened.unwrap()),
                fd,
            ),
{
    match listened {
        Some(port_index) => {
            let pid = k.get_current_task().to_pid();
            let fd = k.set_new_fd(pid, FileRef::Port(port_index));
            port_index as isize
        },
        None => -1,
    }
}

} // verus!
