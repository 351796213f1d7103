use std::io::ErrorKind;
use vstd::prelude::*;

verus! {

/// An error of an I/O operation of the standard library. Its value is opaque here.
#[verifier::external_type_specification]
#[verifier::external_body]
pub struct ExIoError(std::io::Error);

/// The categories of I/O errors that are told apart. `Unlisted` stands for every other one.
#[derive(Clone, Copy, Debug, PartialEq, Eq, Structural)]
pub enum IoErrorKind {
    NotFound,
    PermissionDenied,
    ConnectionRefused,
    ConnectionReset,
    ConnectionAborted,
    NotConnected,
    AddrInUse,
    AddrNotAvailable,
    BrokenPipe,
    AlreadyExists,
    WouldBlock,
    InvalidInput,
    InvalidData,
    TimedOut,
    WriteZero,
    Interrupted,
    Other,
    UnexpectedEof,
    Unlisted,
}

/// The category of `err`.
pub uninterp spec fn io_error_kind(err: std::io::Error) -> IoErrorKind;

/// Calls `std::io::Error::kind`. The contract claims that the category depends on the error
/// alone.
#[verifier::external_body]
pub(crate) fn error_kind(err: &std::io::Error) -> (r: IoErrorKind)
    ensures
        r == io_error_kind(*err),
{
    match err.kind() {
        ErrorKind::NotFound => IoErrorKind::NotFound, ErrorKind::PermissionDenied => IoErrorKind::PermissionDenied,
        ErrorKind::ConnectionRefused => IoErrorKind::ConnectionRefused, ErrorKind::ConnectionReset => IoErrorKind::ConnectionReset,
        ErrorKind::ConnectionAborted => IoErrorKind::ConnectionAborted, ErrorKind::NotConnected => IoErrorKind::NotConnected,
        ErrorKind::AddrInUse => IoErrorKind::AddrInUse, ErrorKind::AddrNotAvailable => IoErrorKind::AddrNotAvailable,
        ErrorKind::BrokenPipe => IoErrorKind::BrokenPipe, ErrorKind::AlreadyExists => IoErrorKind::AlreadyExists,
        ErrorKind::WouldBlock => IoErrorKind::WouldBlock, ErrorKind::InvalidInput => IoErrorKind::InvalidInput,
        ErrorKind::InvalidData => IoErrorKind::InvalidData, ErrorKind::TimedOut => IoErrorKind::TimedOut,
        ErrorKind::WriteZero => IoErrorKind::WriteZero, ErrorKind::Interrupted => IoErrorKind::Interrupted,
        ErrorKind::Other => IoErrorKind::Other, ErrorKind::UnexpectedEof => IoErrorKind::UnexpectedEof,
        _ => IoErrorKind::Unlisted,
    }
}

} // verus!
