//! What a build produces: files to write and directories to copy, as plain
//! values.  The assembler computes these; writing them to disk is the
//! surrounding application's job.

use vstd::prelude::*;

verus! {

/// A file the build writes: its path under the build directory, and its
/// full content.
#[derive(Debug, Clone, PartialEq, Eq)]
pub struct OutFile {
    pub path: String,
    pub content: String,
}

/// A directory whose files the build copies verbatim.
#[derive(Debug, Clone, PartialEq, Eq)]
pub struct CopyDir {
    pub from: String,
    pub to: String,
}

/// The complete output of assembling a package.
#[derive(Debug, Clone, PartialEq, Eq)]
pub struct Assembly {
    pub files: Vec<OutFile>,
    pub dir_copies: Vec<CopyDir>,
}

} // verus!
