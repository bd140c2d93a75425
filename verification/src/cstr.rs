//! Null-terminated byte strings, the path type of the kernel interface.

use vstd::prelude::*;
use vstd::slice::{slice_subrange, slice_to_vec};

verus! {

/// A null-terminated byte string: a sequence of bytes whose last byte is 0.
/// The view `@` is the stored bytes, terminator included.
#[derive(Clone, Debug, PartialEq, Eq)]
pub struct CStr {
    bytes: Vec<u8>,
}

impl View for CStr {
    type V = Seq<u8>;

    closed spec fn view(&self) -> Seq<u8> {
        self.bytes@
    }
}

impl CStr {
    /// The bytes end with the terminator.
    pub open spec fn wf(self) -> bool {
        &&& self@.len() >= 1
        &&& self@.last() == 0
    }

    /// Wrap a byte slice that already carries its null terminator.
    pub fn from_bytes(bytes: &[u8]) -> (r: CStr)
        requires
            bytes@.len() >= 1,
            bytes@.last() == 0,
        ensures
            r@ == bytes@,
            r.wf(),
    {
        CStr { bytes: slice_to_vec(bytes) }
    }

    /// The byte at position `i`, terminator included; `None` past the end.
    pub fn get(&self, i: usize) -> (r: Option<u8>)
        ensures
            r == (if i < self@.len() {
                Some(self@[i as int])
            } else {
                None::<u8>
            }),
    {
        if i < self.bytes.len() {
            Some(self.bytes[i])
        } else {
            None
        }
    }

    /// The string's bytes without the terminator.
    pub fn as_bytes(&self) -> (r: &[u8])
        requires
            self.wf(),
        ensures
            r@ == self@.subrange(0, self@.len() - 1),
    {
        slice_subrange(self.bytes.as_slice(), 0, self.bytes.len() - 1)
    }

    /// The stored length, terminator included.
    pub fn len_with_nul(&self) -> (r: usize)
        ensures
            r == self@.len(),
    {
        self.bytes.len()
    }
}

} // verus!
