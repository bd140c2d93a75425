//! Plain data types of the kernel-call layer.  The calls themselves are
//! issued by the embedding program; these types fix the vocabulary it
//! shares with the library.

use vstd::prelude::*;

verus! {

/// Where a seek offset is measured from.
#[derive(Clone, Copy, PartialEq, Eq, Structural, Debug)]
pub enum SeekFrom {
    Start,
    End,
    Current,
}

/// A process identifier; the kernel only hands out non-negative ones.
#[derive(Clone, Copy, PartialEq, Eq, Structural, Debug)]
pub struct Pid(pub i32);

/// Which processes a signal is addressed to.
#[derive(Clone, Copy, PartialEq, Eq, Structural, Debug)]
pub enum SignalWhere {
    Exactly(usize),
    CurrentGroup,
    AllValid,
    Group(usize),
}

} // verus!
