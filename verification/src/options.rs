//! How a single archive entry is stored.

use vstd::prelude::*;

verus! {

/// Storage format of an entry's data.
#[derive(Clone, Copy, Debug, PartialEq, Eq, Structural)]
pub enum Compression {
    /// The bytes are stored as they are.
    Stored,
    /// The bytes are deflated.
    Deflated,
}

/// Storage options of one entry: its compression and the boundary on which
/// its data must start.
#[derive(Clone, Copy, Debug, PartialEq, Eq, Structural)]
pub enum EntryOptions {
    /// Stored, starting wherever the header ends.
    Unaligned,
    /// Stored, starting on a multiple of the given number of bytes.
    Aligned(u16),
    /// Deflated, starting wherever the header ends.
    Compressed,
}

impl EntryOptions {
    /// The boundary, in bytes, on which the entry's data starts.
    pub open spec fn alignment_spec(self) -> u16 {
        match self {
            EntryOptions::Aligned(align) => align,
            _ => 1,
        }
    }

    /// The storage format of the entry's data.
    pub open spec fn compression_spec(self) -> Compression {
        match self {
            EntryOptions::Compressed => Compression::Deflated,
            _ => Compression::Stored,
        }
    }

    #[verifier::when_used_as_spec(alignment_spec)]
    pub fn alignment(self) -> (align: u16)
        ensures
            align == self.alignment_spec(),
    {
        match self {
            EntryOptions::Aligned(align) => align,
            _ => 1,
        }
    }

    #[verifier::when_used_as_spec(compression_spec)]
    pub fn compression(self) -> (method: Compression)
        ensures
            method == self.compression_spec(),
    {
        match self {
            EntryOptions::Compressed => Compression::Deflated,
            _ => Compression::Stored,
        }
    }
}

} // verus!
