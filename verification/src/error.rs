//! The ways in which a buffer can fail to decode.

use vstd::prelude::*;

verus! {

/// Why a buffer was rejected. Encoding has no error path.
#[derive(Debug, Clone, Copy, PartialEq, Eq, Structural)]
pub enum DecodeError {
    /// The buffer's length is not the one that the schema requires or implies.
    InvalidByteLength { len: usize, expected: usize },
    /// An offset differs from the fixed region's length, lies below the offset
    /// before it, or points past the end of the buffer. `i` is that offset.
    OutOfBoundsByte { i: usize },
    /// A byte pattern that no value encodes to: a boolean byte above one, or a
    /// presence flag above one.
    BytesInvalid,
}

} // verus!
