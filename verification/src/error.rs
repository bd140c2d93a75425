//! The error type shared by everything that talks to the kernel.

use vstd::prelude::*;

verus! {

/// An operating-system error: the (positive) error number a failed kernel
/// call reported.
#[derive(Clone, Copy, PartialEq, Eq, Structural, Debug)]
pub struct Error(pub i32);

} // verus!
