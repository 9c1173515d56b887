//! Failure kinds reported by the embedder and the validator.

use vstd::prelude::*;

verus! {

/// A terminal failure of an embed or validate call.
#[derive(Debug)]
pub enum QrImageError {
    /// The payload cannot be encoded as a QR symbol (capacity or
    /// character-set violation).
    QrEncodeError,
    /// The background geometry is malformed (a zero dimension).
    CompositingError,
    /// A symbol decoded successfully but its payload differs from the
    /// expected one; `decoded` carries the bytes that were read.
    ValidationMismatch { decoded: Vec<u8> },
    /// No attempt within the configured budget produced a successful decode.
    ValidationExhausted { attempts: u32 },
}

} // verus!
