use vstd::prelude::*;

verus! {

/// Everything that can go wrong while decoding the binary formats.
///
/// Values that are floating point numbers on disk are carried as their
/// IEEE-754 bit patterns.
#[derive(Debug, Clone)]
pub enum VolitionError {
    BufferTooSmall { for_what: &'static str, need: usize, avail: usize },
    ExpectedExactValue { field: &'static str, expected: i32, got: i32 },
    UnexpectedValue { desc: &'static str, got: i32 },
    ValueTooHigh { field: &'static str, max: usize, got: usize },
    NonsensicalFloat { field: &'static str, got: u32 },
    InvalidString { offset: usize },
    CStringRanOutOfBytes(usize),
    InvalidPackfileSignature(i32),
    UnknownPackfileVersion(i32),
    PackfileCompression,
    InvalidStaticMeshSignature(i32),
    UnknownStaticMeshVersion(i16),
}

} // verus!
