//! A read-only virtual filesystem over a remote, message-oriented blob store.
//!
//! Remote metadata records (newline-separated `key:value` text) are decoded
//! into attribute sets, laid out as an inode table rooted at inode 1, and
//! served through the usual filesystem protocol operations: `lookup`,
//! `getattr`, `readdir` and `read`. File content is fetched on demand and
//! cached per entry; the types here hold the verified logic, while mounting
//! and network transport live outside the library.

pub mod fetch;
pub mod fs;
pub mod laws;
pub mod meta;
pub mod table;
pub mod text;

use vstd::prelude::*;

verus! {

/// Error signals reported to the filesystem caller.
#[derive(Clone, Copy, PartialEq, Eq, Structural, Debug)]
pub enum FsError {
    /// Unknown inode, unknown directory, or no child with the requested name.
    NotFound,
    /// A content read was requested on an inode that is not a regular file.
    TypeMismatch,
}

} // verus!
