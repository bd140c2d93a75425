//! A freestanding runtime support library: a verified general-purpose
//! memory allocator (a small-object pool backed by a usage bitmask and a
//! page cache of kernel mappings), together with the small data types and
//! pure helpers around it (C strings, decimal formatting, directory-entry
//! records).
//!
//! Kernel mappings are represented by their plain addresses; the code that
//! issues the actual system calls lives outside this library and feeds the
//! results back in.

pub mod allocator;
pub mod bits;
pub mod cstr;
pub mod error;
pub mod fmt;
pub mod fs;
pub mod io;
pub mod libc;
pub mod syscalls;

pub use allocator::Allocator;
pub use allocator::PoolDealloc;
pub use allocator::SmallAllocator;
pub use cstr::CStr;
pub use error::Error;
