use vstd::prelude::*;

verus! {

/// The ways in which an operation of this library can fail.
#[derive(Debug, Clone, Copy, PartialEq, Eq, Structural)]
pub enum PngError {
    /// A chunk-type string that is not four ASCII letters, or a missing or
    /// wrong container signature.
    Format,
    /// The input ends before a field that it declares.
    TruncatedInput,
    /// The stored CRC-32 of a chunk differs from the one computed over it.
    Checksum,
    /// A payload read as text is not valid UTF-8.
    Encoding,
    /// No chunk of the requested type is present.
    NotFound,
}

} // verus!
