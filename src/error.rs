//! Errors of the decoder.

use vstd::prelude::*;

verus! {

/// The kind of failure that a byte source reports.
#[derive(Debug, Clone, Copy, PartialEq, Eq, Structural)]
pub enum IoKind {
    NotFound,
    PermissionDenied,
    Interrupted,
    UnexpectedEof,
    InvalidInput,
    InvalidData,
    WouldBlock,
    Other,
}

/// Why a decoding operation failed.
#[derive(Debug)]
pub enum Error {
    /// The byte source failed, or ended before the requested bytes.
    Io(IoKind),
    /// The stream does not start with the container's signature.
    FileFormat(String),
    /// The container's version is not one this decoder reads.
    UnsupportedVersion(String),
    /// Bytes that should hold text are not well-formed UTF-8.
    TextDecode,
}

/// Library-wide result type.
pub type Result<T> = core::result::Result<T, Error>;

/// Whether `r` is a failure of the byte source.
pub open spec fn is_io<T>(r: Result<T>) -> bool {
    r is Err && r->Err_0 is Io
}

/// Whether `r` is a failure because the stream ended too early.
pub open spec fn is_eof<T>(r: Result<T>) -> bool {
    r is Err && r->Err_0 is Io && r->Err_0->Io_0 == IoKind::UnexpectedEof
}

} // verus!
