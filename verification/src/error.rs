//! Structured failure values crossing the host boundary.
//!
//! Every decode exit path yields either a complete output buffer or a
//! `CoreError`; no partial output is ever returned.

use vstd::prelude::*;

verus! {

/// Why a decode failed.
#[derive(Clone, Copy, Debug, PartialEq, Eq, Structural)]
pub enum ErrorKind {
    /// The buffer is too short or the magic bytes do not match the claimed
    /// format, or a declared structure points outside the buffer.
    InvalidInput,
    /// The container is recognized but uses an encoding variant this core
    /// does not handle (for example a progressive primary JPEG frame).
    UnsupportedFeature,
    /// The file is structurally valid but holds no extractable preview
    /// meeting policy; the host may fall back to a full decode.
    NoThumbnailAvailable,
    /// The selected embedded stream is itself corrupt.
    DecodeFailure,
}

/// A failure, tagged with its kind and the byte offset at which the
/// problem was detected.
#[derive(Clone, Copy, Debug, PartialEq, Eq, Structural)]
pub struct CoreError {
    pub kind: ErrorKind,
    /// Byte offset into the input buffer nearest to the detected problem.
    pub offset: u64,
}

impl CoreError {
    /// Build an error value.
    pub fn new(kind: ErrorKind, offset: u64) -> (r: CoreError)
        ensures
            r == (CoreError { kind, offset }),
    {
        CoreError { kind, offset }
    }

    /// A fixed human-readable description of the error kind.
    pub fn message(&self) -> (r: &'static str)
        ensures
            self.kind is InvalidInput ==> r@ == "invalid input"@,
            self.kind is UnsupportedFeature ==> r@ == "unsupported feature"@,
            self.kind is NoThumbnailAvailable ==> r@ == "no thumbnail available"@,
            self.kind is DecodeFailure ==> r@ == "decode failure"@,
    {
        match self.kind {
            ErrorKind::InvalidInput => "invalid input",
            ErrorKind::UnsupportedFeature => "unsupported feature",
            ErrorKind::NoThumbnailAvailable => "no thumbnail available",
            ErrorKind::DecodeFailure => "decode failure",
        }
    }
}

/// Shorthand used by the parsing layers when building error values in
/// specifications and code alike.
pub open spec fn err_at(kind: ErrorKind, offset: int) -> CoreError {
    CoreError { kind, offset: offset as u64 }
}

} // verus!
