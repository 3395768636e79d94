//! What can go wrong while a package is assembled.

use vstd::prelude::*;

verus! {

/// Why an operation on a package failed. After any failure the output that
/// was written so far is to be thrown away.
#[derive(Debug, PartialEq, Eq)]
pub enum ApkError {
    /// A source could not be read or the output could not be written; the
    /// text says what happened.
    Io(String),
    /// The manifest did not compile; the text is the compiler's.
    Compile(String),
    /// The archive already holds an entry of this name.
    DuplicateEntry(String),
    /// The package could not be signed.
    Sign,
}

} // verus!
