//! The ways decoding, encoding and building a dictionary fail.

use vstd::prelude::*;

verus! {

/// Why a call failed.
#[derive(Debug, Clone, Copy, PartialEq, Eq, Structural)]
pub enum Error {
    /// The buffer ends before a length it declares.
    TruncatedInput,
    /// A content-code type number lies outside `1..=12`.
    UnknownTypeKind,
    /// The body of a string record is not UTF-8.
    InvalidUtf8,
    /// Bytes remain after the expected item.
    TrailingData,
    /// The dictionary holds no entry with a name being encoded.
    UnknownField,
    /// The content-codes message does not describe a usable dictionary.
    BootstrapFailure,
}

} // verus!
