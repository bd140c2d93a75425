//! Kernel interface constants and plain data shapes, as the Linux kernel
//! defines them for this platform.

#![allow(non_camel_case_types)]

use vstd::prelude::*;

verus! {

/// Resolve relative paths against the current working directory.
pub const AT_FDCWD: i32 = -100;

/// File descriptor of standard output.
pub const STDOUT_FILENO: i32 = 1;

/// File descriptor of standard error.
pub const STDERR_FILENO: i32 = 2;

/// Bad file descriptor.
pub const EBADF: i32 = 9;

/// The call would block; retry.
pub const EAGAIN: i32 = 11;

/// Invalid argument.
pub const EINVAL: i32 = 22;

pub const O_RDONLY: i32 = 0;

pub const O_WRONLY: i32 = 1;

pub const O_RDWR: i32 = 2;

pub const O_CREAT: i32 = 64;

pub const O_DIRECTORY: i32 = 0x10000;

pub const O_CLOEXEC: i32 = 0x80000;

pub const S_IRUSR: u32 = 0o0400;

pub const S_IWUSR: u32 = 0o0200;

pub const S_IRGRP: u32 = 0o0040;

pub const S_IWGRP: u32 = 0o0020;

pub const S_IROTH: u32 = 0o0004;

pub const S_IWOTH: u32 = 0o0002;

pub const SEEK_SET: i32 = 0;

pub const SEEK_CUR: i32 = 1;

pub const SEEK_END: i32 = 2;

/// The mapping's pages may be read.
pub const PROT_READ: i32 = 1;

/// The mapping's pages may be written.
pub const PROT_WRITE: i32 = 2;

/// Changes to the mapping are private to the process.
pub const MAP_PRIVATE: i32 = 0x0002;

/// The mapping is backed by no file.
pub const MAP_ANON: i32 = 0x0020;

/// The remap call may relocate the mapping to grow it.
pub const MREMAP_MAYMOVE: i32 = 1;

/// A point in time: seconds and microseconds.
#[derive(Clone, Copy, PartialEq, Eq, Structural, Debug)]
pub struct timeval {
    pub tv_sec: i64,
    pub tv_usec: i64,
}

/// A signal set, as the kernel lays it out on a 64-bit platform.
#[derive(Clone, Copy)]
pub struct sigset_t {
    pub bits: [u64; 16],
}

} // verus!
