use vstd::prelude::*;

verus! {

/// Why a decode failed.
#[derive(Debug, Clone, Copy, PartialEq, Eq, Structural)]
pub enum BitcoinError {
    /// The buffer ends before a field that the decoder has to read.
    InsufficientBytes,
    /// Well-bounded content that is not valid (a text identifier of the wrong size).
    InvalidFormat,
}

} // verus!
