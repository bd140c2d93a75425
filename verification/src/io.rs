//! Byte-stream interfaces.  The standard streams and files implement these
//! in the embedding program, where the file descriptors live; the library
//! fixes the shape of the contract and decides how a write-everything loop
//! reacts to each write's outcome.

use crate::error::Error;
use vstd::prelude::*;

verus! {

/// A source of bytes.  A call reads at most `buf.len()` bytes into the
/// front of `buf` and reports how many, or an operating-system error.
pub trait Read {
    fn read(&mut self, buf: &mut Vec<u8>) -> Result<usize, Error>;
}

/// A sink of bytes.  A call writes some prefix of `buf` and reports its
/// length, or an operating-system error.
pub trait Write {
    fn write(&mut self, buf: &[u8]) -> Result<usize, Error>;
}

/// What a write-everything loop does after one write.
#[derive(Clone, Copy, PartialEq, Eq, Structural, Debug)]
pub enum WriteStep {
    /// The whole buffer is written.
    Done,
    /// Write again, from this offset.
    Continue { offset: usize },
    /// Give up with this error.
    Fail { error: Error },
}

/// The write-everything decision: a write of zero bytes makes no progress
/// and is an error; a short write advances by what was written; a
/// would-block error is retried in place; every other error is final.
pub open spec fn spec_write_all_step(offset: int, len: int, outcome: Result<usize, Error>) -> WriteStep {
    if offset >= len {
        WriteStep::Done
    } else {
        match outcome {
            Ok(n) => {
                if n == 0 {
                    WriteStep::Fail { error: Error(crate::libc::EBADF) }
                } else if offset + n >= len {
                    WriteStep::Done
                } else {
                    WriteStep::Continue { offset: (offset + n) as usize }
                }
            },
            Err(e) => {
                if e == (Error(crate::libc::EAGAIN)) {
                    WriteStep::Continue { offset: offset as usize }
                } else {
                    WriteStep::Fail { error: e }
                }
            },
        }
    }
}

/// Decide how a loop writing all of a `len`-byte buffer, with `offset`
/// bytes already written, reacts to the outcome of one write of the
/// remainder.
pub fn write_all_step(offset: usize, len: usize, outcome: Result<usize, Error>) -> (r: WriteStep)
    requires
        offset <= len,
    ensures
        r == spec_write_all_step(offset as int, len as int, outcome),
{
    if offset >= len {
        return WriteStep::Done;
    }
    match outcome {
        Ok(n) => {
            if n == 0 {
                WriteStep::Fail { error: Error(crate::libc::EBADF) }
            } else if n >= len - offset {
                WriteStep::Done
            } else {
                WriteStep::Continue { offset: offset + n }
            }
        },
        Err(e) => {
            if e.0 == crate::libc::EAGAIN {
                WriteStep::Continue { offset }
            } else {
                WriteStep::Fail { error: e }
            }
        },
    }
}

} // verus!
