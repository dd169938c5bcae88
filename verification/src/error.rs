use vstd::prelude::*;

verus! {

/// A fatal condition met while reading the container or its format record.
/// Every malformed input surfaces as one of these; nothing panics.
#[derive(Clone, Copy, Debug, PartialEq, Eq, Structural)]
pub enum WavError {
    /// A chunk header or payload runs past the end of the byte stream.
    Truncated,
    /// No chunk identified "fmt " is present.
    MissingFmt,
    /// The "fmt " chunk does not carry a 16-byte payload.
    BadFmtLength,
    /// The format tag is not 1 (uncompressed linear PCM).
    NotPcm,
    /// No chunk identified "data" is present.
    MissingData,
    /// The block alignment is zero, so no frame boundary can be found.
    BadBlockAlign,
}

} // verus!
