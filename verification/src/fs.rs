//! File-system helpers.  Opening, reading and closing descriptors is the
//! embedding program's work; the library holds the directory-entry record
//! format and its parser.

pub mod directory;
