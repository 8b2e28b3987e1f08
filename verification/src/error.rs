//! The closed error sets of the engine.

use vstd::prelude::*;

verus! {

/// Failures of graph management: adding, looking up or clearing nodes.
#[derive(Clone, Copy, Debug, PartialEq, Eq, Structural)]
pub enum NodeError {
    /// The parent node already holds the maximum number of children.
    TooManyChildren,
    /// The path table already holds the maximum number of entries.
    TooManyNodes,
    /// The given identifier is outside the path table.
    UnknownID(u32),
}

/// Failures of PCM file construction; after construction the source only
/// ever signals end of stream.
#[derive(Clone, Copy, Debug, PartialEq, Eq, Structural)]
pub enum PcmError {
    /// The file is shorter than its four-byte header.
    TooShort,
    /// The first header byte is not the expected magic number.
    BadMagicNumber,
    /// The header names a sample rate other than 44100.
    BadSampleRate(u16),
}

} // verus!
