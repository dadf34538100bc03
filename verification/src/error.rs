//! Errors of the protocol layer.

use vstd::prelude::*;

verus! {

/// The class of a protocol error: the kinds of error that reading and writing have.
#[derive(Clone, Copy, Debug, PartialEq, Eq, Structural)]
pub enum ErrorKind {
    NotFound,
    PermissionDenied,
    ConnectionRefused,
    ConnectionReset,
    HostUnreachable,
    NetworkUnreachable,
    ConnectionAborted,
    NotConnected,
    AddrInUse,
    AddrNotAvailable,
    NetworkDown,
    BrokenPipe,
    AlreadyExists,
    WouldBlock,
    NotADirectory,
    IsADirectory,
    DirectoryNotEmpty,
    ReadOnlyFilesystem,
    StaleNetworkFileHandle,
    InvalidInput,
    InvalidData,
    TimedOut,
    WriteZero,
    StorageFull,
    NotSeekable,
    QuotaExceeded,
    FileTooLarge,
    ResourceBusy,
    ExecutableFileBusy,
    Deadlock,
    CrossesDevices,
    TooManyLinks,
    InvalidFilename,
    ArgumentListTooLong,
    Interrupted,
    Unsupported,
    UnexpectedEof,
    OutOfMemory,
    Other,
}

/// A protocol error: its class and a fixed message.
#[derive(Clone, Copy, Debug, PartialEq, Eq)]
pub struct Error {
    pub kind: ErrorKind,
    pub message: &'static str,
}

/// The error for bytes or responses that break the protocol.
pub open spec fn data_error(message: &'static str) -> Error {
    Error { kind: ErrorKind::InvalidData, message }
}

/// The error for a request that the caller may not make.
pub open spec fn input_error(message: &'static str) -> Error {
    Error { kind: ErrorKind::InvalidInput, message }
}

/// The error for a counter that would overflow.
pub open spec fn other_error(message: &'static str) -> Error {
    Error { kind: ErrorKind::Other, message }
}

pub fn invalid_data(message: &'static str) -> (error: Error)
    ensures
        error == data_error(message),
{
    Error { kind: ErrorKind::InvalidData, message }
}

pub fn invalid_input(message: &'static str) -> (error: Error)
    ensures
        error == input_error(message),
{
    Error { kind: ErrorKind::InvalidInput, message }
}

pub fn other(message: &'static str) -> (error: Error)
    ensures
        error == other_error(message),
{
    Error { kind: ErrorKind::Other, message }
}

} // verus!
