//! The runtime of user programs: system-call requests and the decisions
//! around them.
pub mod io;
pub mod net;
pub mod sync;
pub mod syscall;
pub mod threads;
