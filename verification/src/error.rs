use vstd::prelude::*;

verus! {

/// Why a header field could not be decoded.
#[derive(Clone, Copy, Debug, PartialEq, Eq, Structural)]
pub enum DecodeError {
    /// The tag octets are empty, or the tag number they spell does not fit
    /// in 64 bits.
    InvalidInput,
    /// The input ends before the length field does.
    UnexpectedEndOfInput,
}

} // verus!
