//! Signal numbers and signal sets.
use vstd::prelude::*;

verus! {

/// Number of signals.
pub const MAX_SIGNAL_NUM: usize = 32;

pub const SIGDEF: i32 = 0;
pub const SIGHUP: i32 = 1;
pub const SIGINT: i32 = 2;
pub const SIGQUIT: i32 = 3;
pub const SIGILL: i32 = 4;
pub const SIGTRAP: i32 = 5;
pub const SIGABRT: i32 = 6;
pub const SIGBUS: i32 = 7;
pub const SIGFPE: i32 = 8;
pub const SIGKILL: i32 = 9;
pub const SIGUSR1: i32 = 10;
pub const SIGSEGV: i32 = 11;
pub const SIGUSR2: i32 = 12;
pub const SIGPIPE: i32 = 13;
pub const SIGALRM: i32 = 14;
pub const SIGTERM: i32 = 15;
pub const SIGSTKFLT: i32 = 16;
pub const SIGCHLD: i32 = 17;
pub const SIGCONT: i32 = 18;
pub const SIGSTOP: i32 = 19;
pub const SIGTSTP: i32 = 20;
pub const SIGTTIN: i32 = 21;
pub const SIGTTOU: i32 = 22;
pub const SIGURG: i32 = 23;
pub const SIGXCPU: i32 = 24;
pub const SIGXFSZ: i32 = 25;
pub const SIGVTALRM: i32 = 26;
pub const SIGPROF: i32 = 27;
pub const SIGWINCH: i32 = 28;
pub const SIGIO: i32 = 29;
pub const SIGPWR: i32 = 30;
pub const SIGSYS: i32 = 31;

/// A set of signals: signal `n` is bit `n`.
#[derive(Copy, Clone, PartialEq, Eq, Structural, Debug)]
pub struct SignalFlags {
    pub bits: i32,
}

/// The one-signal set of signal `n`.
pub open spec fn signal_bit(n: int) -> i32 {
    ((1u32 << (n as u32)) as i32)
}

/// The signals that kill a process, with the exit code that they leave.
pub open spec fn kill_code(n: int) -> Option<i32> {
    if n == 2 {
        Some(-2i32)
    } else if n == 4 {
        Some(-4i32)
    } else if n == 6 {
        Some(-6i32)
    } else if n == 8 {
        Some(-8i32)
    } else if n == 9 {
        Some(-9i32)
    } else if n == 11 {
        Some(-11i32)
    } else {
        None
    }
}

impl SignalFlags {
    /// Whether every signal of `other` is in this set.
    pub open spec fn has(&self, other: SignalFlags) -> bool {
        self.bits & other.bits == other.bits
    }

    /// The empty set.
    pub fn empty() -> (r: Self)
        ensures
            r.bits == 0,
    {
        SignalFlags { bits: 0 }
    }

    /// The set with bits `bits`; every bit names a signal, so this always
    /// succeeds.
    pub fn from_bits(bits: i32) -> (r: Option<Self>)
        ensures
            r == Some(SignalFlags { bits }),
    {
        Some(SignalFlags { bits })
    }

    /// The one-signal set of signal `signum`.
    pub fn from_signum(signum: u32) -> (r: Self)
        requires
            signum < 32,
        ensures
            r.bits == signal_bit(signum as int),
    {
        SignalFlags { bits: (1u32 << signum) as i32 }
    }

    /// The bits of this set.
    pub fn bits(&self) -> (r: i32)
        ensures
            r == self.bits,
    {
        self.bits
    }

    /// Whether every signal of `other` is in this set.
    pub fn contains(&self, other: SignalFlags) -> (r: bool)
        ensures
            r == self.has(other),
    {
        (self.bits & other.bits) == other.bits
    }

    /// Adds the signals of `other`.
    pub fn insert(&mut self, other: SignalFlags)
        ensures
            final(self).bits == old(self).bits | other.bits,
    {
        self.bits = self.bits | other.bits;
    }

    /// Takes the signals of `other` out.
    pub fn remove(&mut self, other: SignalFlags)
        ensures
            final(self).bits == old(self).bits & !other.bits,
    {
        self.bits = self.bits & !other.bits;
    }

    /// For a set holding one of the signals that kill a process, that
    /// signal's exit code (minus its number) and a message; the first such
    /// signal counts, in the order INT, ILL, ABRT, FPE, KILL, SEGV.
    pub fn check_error(&self) -> (r: Option<(i32, &'static str)>)
        ensures
            self.has(SignalFlags { bits: signal_bit(2) }) ==> r.is_some() && r.unwrap().0 == -2,
            !self.has(SignalFlags { bits: signal_bit(2) }) && self.has(
                SignalFlags { bits: signal_bit(4) },
            ) ==> r.is_some() && r.unwrap().0 == -4,
            !self.has(SignalFlags { bits: signal_bit(2) }) && !self.has(
                SignalFlags { bits: signal_bit(4) },
            ) && self.has(SignalFlags { bits: signal_bit(6) }) ==> r.is_some() && r.unwrap().0
                == -6,
            !self.has(SignalFlags { bits: signal_bit(2) }) && !self.has(
                SignalFlags { bits: signal_bit(4) },
            ) && !self.has(SignalFlags { bits: signal_bit(6) }) && self.has(
                SignalFlags { bits: signal_bit(8) },
            ) ==> r.is_some() && r.unwrap().0 == -8,
            !self.has(SignalFlags { bits: signal_bit(2) }) && !self.has(
                SignalFlags { bits: signal_bit(4) },
            ) && !self.has(SignalFlags { bits: signal_bit(6) }) && !self.has(
                SignalFlags { bits: signal_bit(8) },
            ) && self.has(SignalFlags { bits: signal_bit(9) }) ==> r.is_some() && r.unwrap().0
                == -9,
            !self.has(SignalFlags { bits: signal_bit(2) }) && !self.has(
                SignalFlags { bits: signal_bit(4) },
            ) && !self.has(SignalFlags { bits: signal_bit(6) }) && !self.has(
                SignalFlags { bits: signal_bit(8) },
            ) && !self.has(SignalFlags { bits: signal_bit(9) }) && self.has(
                SignalFlags { bits: signal_bit(11) },
            ) ==> r.is_some() && r.unwrap().0 == -11,
            !self.has(SignalFlags { bits: signal_bit(2) }) && !self.has(
                SignalFlags { bits: signal_bit(4) },
            ) && !self.has(SignalFlags { bits: signal_bit(6) }) && !self.has(
                SignalFlags { bits: signal_bit(8) },
            ) && !self.has(SignalFlags { bits: signal_bit(9) }) && !self.has(
                SignalFlags { bits: signal_bit(11) },
            ) ==> r.is_none(),
    {
        if self.contains(SignalFlags::from_signum(2)) {
            Some((-2, "Killed, SIGINT=2"))
        } else if self.contains(SignalFlags::from_signum(4)) {
            Some((-4, "Illegal Instruction, SIGILL=4"))
        } else if self.contains(SignalFlags::from_signum(6)) {
            Some((-6, "Aborted, SIGABRT=6"))
        } else if self.contains(SignalFlags::from_signum(8)) {
            Some((-8, "Erroneous Arithmetic Operation, SIGFPE=8"))
        } else if self.contains(SignalFlags::from_signum(9)) {
            Some((-9, "Killed, SIGKILL=9"))
        } else if self.contains(SignalFlags::from_signum(11)) {
            Some((-11, "Segmentation Fault, SIGSEGV=11"))
        } else {
            None
        }
    }
}

/// A one-signal set holds exactly its own signal among the signals that
/// kill, so its error code is that signal's.
pub proof fn lemma_check_error_single(n: int)
    requires
        0 <= n < 32,
    ensures
        forall|k: int|
            0 <= k < 32 ==> (SignalFlags { bits: signal_bit(n) }.has(
                SignalFlags { bits: signal_bit(k) },
            ) <==> k == n),
{
    assert forall|k: int| 0 <= k < 32 implies (SignalFlags { bits: signal_bit(n) }.has(
        SignalFlags { bits: signal_bit(k) },
    ) <==> k == n) by {
        let a = n as u32;
        let b = k as u32;
        assert(a < 32 && b < 32 ==> ((((1u32 << a) as i32) & ((1u32 << b) as i32) == ((1u32
            << b) as i32)) <==> a == b)) by (bit_vector);
    }
}

/// Whether a request to change the action of signal `signum` is valid: the
/// signal exists and is neither SIGKILL nor SIGSTOP, whose actions are
/// fixed, and both the new and the old action have an address.
pub open spec fn signal_action_ok(signum: usize, action: usize, old_action: usize) -> bool {
    &&& signum < MAX_SIGNAL_NUM
    &&& signum != SIGKILL as usize
    &&& signum != SIGSTOP as usize
    &&& action != 0
    &&& old_action != 0
}

/// Checks a request to change the action of signal `signum`.
pub fn check_signal_action(signum: usize, action: usize, old_action: usize) -> (r: bool)
    ensures
        r == signal_action_ok(signum, action, old_action),
{
    signum < MAX_SIGNAL_NUM && signum != SIGKILL as usize && signum != SIGSTOP as usize && action != 0
        && old_action != 0
}

} // verus!
