//! The console as a file.
use vstd::prelude::*;

verus! {

/// Standard input.
pub struct Stdin;

/// Standard output.
pub struct Stdout;

impl Stdin {
    /// Standard input can be read.
    pub fn readable(&self) -> (r: bool)
        ensures
            r,
    {
        true
    }

    /// Standard input cannot be written.
    pub fn writable(&self) -> (r: bool)
        ensures
            !r,
    {
        false
    }
}

impl Stdout {
    /// Standard output cannot be read.
    pub fn readable(&self) -> (r: bool)
        ensures
            !r,
    {
        false
    }

    /// Standard output can be written.
    pub fn writable(&self) -> (r: bool)
        ensures
            r,
    {
        true
    }
}

} // verus!
