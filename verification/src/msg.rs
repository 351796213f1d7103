use crate::addr::SocketAddr;
use crate::io::{error_kind, io_error_kind, IoErrorKind};
use vstd::prelude::*;
use vstd::std_specs::cmp::PartialEqSpec;

pub mod low_latency;
pub mod reliable;

verus! {

/// What went wrong in `bincode` when it encoded or decoded a message. Its value is opaque here.
#[verifier::external_type_specification]
#[verifier::external_body]
pub struct ExBincodeErrorKind(bincode::ErrorKind);

#[derive(Debug, Hash, Eq)]
pub struct Username(pub String);

impl Clone for Username {
    fn clone(&self) -> (r: Self)
        ensures
            r == *self,
    {
        Username(self.0.clone())
    }
}

impl PartialEq for Username {
    fn eq(&self, other: &Self) -> (r: bool) {
        self.0 == other.0
    }
}

impl vstd::std_specs::cmp::PartialEqSpecImpl for Username {
    open spec fn obeys_eq_spec() -> bool {
        true
    }

    open spec fn eq_spec(&self, other: &Self) -> bool {
        self.0@ == other.0@
    }
}

/// Data owned by the server about a client.
#[derive(Debug)]
pub struct ClientData {
    /// This user's in-game nickname.
    pub username: Username,
    /// Client's socket address for low-latency transport. This is where the server will send
    /// low-latency data for this client.
    pub udp_addr: SocketAddr,
}

impl Clone for ClientData {
    fn clone(&self) -> (r: Self)
        ensures
            r == *self,
    {
        ClientData { username: self.username.clone(), udp_addr: self.udp_addr }
    }
}

#[derive(Clone, Debug, PartialEq, Hash, Eq)]
pub struct Credentials {
    pub username: Username,
    pub password: String,
    /// When requesting to join the server via Tcp, the client must supply an open Udp port.
    pub udp_addr: SocketAddr,
}

#[derive(Debug)]
pub enum Warning {
    FailedToCompress,
    FailedToDecompress,
    FailedToDeserialize(Box<bincode::ErrorKind>),
    IoFailure(std::io::Error),
    FailedToSerialize(Box<bincode::ErrorKind>),
    FailedToSerializeAck(Box<bincode::ErrorKind>),
    WrongMessageType,
    UnknownSource(SocketAddr),
}

/// When a CommError is of this type, a servicer will drop a client.
#[derive(Debug)]
pub enum Drop {
    AlreadyConnected,
    ApplicationThreadDisconnected,
    FailedToAuthenticate(Credentials),
    FailedToBind(std::io::Error),
    FailedToConnect(std::io::Error),
    IoFailure(std::io::Error),
}

#[derive(Debug)]
pub enum CommError {
    Warning(Warning),
    Drop(Drop),
    Exit,
}

/// What a call on the application side can fail with.
#[derive(Clone, Copy, Debug, PartialEq, Eq, Structural)]
pub enum ApplicationError {
    /// The servicer threads are gone.
    Shutdown,
}

/// Whether an I/O error of this kind leaves the connection usable, so that a warning is enough.
pub open spec fn is_passing(kind: IoErrorKind) -> bool {
    match kind {
        IoErrorKind::NotFound => true,
        IoErrorKind::ConnectionReset => true,
        IoErrorKind::WouldBlock => true,
        IoErrorKind::InvalidInput => true,
        IoErrorKind::InvalidData => true,
        IoErrorKind::WriteZero => true,
        IoErrorKind::Interrupted => true,
        IoErrorKind::Other => true,
        IoErrorKind::UnexpectedEof => true,
        _ => false,
    }
}

/// The communication error that an I/O error of kind `kind` amounts to.
pub open spec fn comm_error(kind: IoErrorKind, err: std::io::Error) -> CommError {
    if is_passing(kind) {
        CommError::Warning(Warning::IoFailure(err))
    } else {
        CommError::Drop(Drop::IoFailure(err))
    }
}

impl CommError {
    /// Sorts an I/O error by its kind into those that are worth a warning and those that drop the
    /// client.
    pub fn from_kind(kind: IoErrorKind, err: std::io::Error) -> (r: CommError)
        ensures
            r == comm_error(kind, err),
    {
        match kind {
            IoErrorKind::NotFound => CommError::Warning(Warning::IoFailure(err)),
            IoErrorKind::ConnectionReset => CommError::Warning(Warning::IoFailure(err)),
            IoErrorKind::WouldBlock => CommError::Warning(Warning::IoFailure(err)),
            IoErrorKind::InvalidInput => CommError::Warning(Warning::IoFailure(err)),
            IoErrorKind::InvalidData => CommError::Warning(Warning::IoFailure(err)),
            IoErrorKind::WriteZero => CommError::Warning(Warning::IoFailure(err)),
            IoErrorKind::Interrupted => CommError::Warning(Warning::IoFailure(err)),
            IoErrorKind::Other => CommError::Warning(Warning::IoFailure(err)),
            IoErrorKind::UnexpectedEof => CommError::Warning(Warning::IoFailure(err)),
            IoErrorKind::PermissionDenied => CommError::Drop(Drop::IoFailure(err)),
            IoErrorKind::ConnectionRefused => CommError::Drop(Drop::IoFailure(err)),
            IoErrorKind::ConnectionAborted => CommError::Drop(Drop::IoFailure(err)),
            IoErrorKind::NotConnected => CommError::Drop(Drop::IoFailure(err)),
            IoErrorKind::AddrInUse => CommError::Drop(Drop::IoFailure(err)),
            IoErrorKind::AddrNotAvailable => CommError::Drop(Drop::IoFailure(err)),
            IoErrorKind::BrokenPipe => CommError::Drop(Drop::IoFailure(err)),
            IoErrorKind::AlreadyExists => CommError::Drop(Drop::IoFailure(err)),
            IoErrorKind::TimedOut => CommError::Drop(Drop::IoFailure(err)),
            _ => CommError::Drop(Drop::IoFailure(err)),
        }
    }
}

impl From<std::io::Error> for CommError {
    fn from(err: std::io::Error) -> (r: CommError) {
        CommError::from_kind(error_kind(&err), err)
    }
}

impl vstd::std_specs::convert::FromSpecImpl<std::io::Error> for CommError {
    open spec fn obeys_from_spec() -> bool {
        true
    }

    open spec fn from_spec(err: std::io::Error) -> CommError {
        comm_error(io_error_kind(err), err)
    }
}

/// The message that was decoded, or a warning where it could not be.
pub fn decoded<T>(result: Result<T, Box<bincode::ErrorKind>>) -> (r: Result<T, CommError>)
    ensures
        r == (match result {
            Ok(message) => Ok::<T, CommError>(message),
            Err(err) => Err::<T, CommError>(
                CommError::Warning(Warning::FailedToDeserialize(err)),
            ),
        }),
{
    match result {
        Ok(message) => Ok(message),
        Err(err) => Err(CommError::Warning(Warning::FailedToDeserialize(err))),
    }
}

/// The bytes that a message was encoded to, or a warning where it could not be.
pub fn encoded(result: Result<Vec<u8>, Box<bincode::ErrorKind>>) -> (r: Result<Vec<u8>, CommError>)
    ensures
        r == (match result {
            Ok(bytes) => Ok::<Vec<u8>, CommError>(bytes),
            Err(err) => Err::<Vec<u8>, CommError>(
                CommError::Warning(Warning::FailedToSerialize(err)),
            ),
        }),
{
    match result {
        Ok(bytes) => Ok(bytes),
        Err(err) => Err(CommError::Warning(Warning::FailedToSerialize(err))),
    }
}

/// The result of an I/O operation, with its error sorted into warnings and drops.
pub fn checked_io<T>(result: Result<T, std::io::Error>) -> (r: Result<T, CommError>)
    ensures
        r == (match result {
            Ok(value) => Ok::<T, CommError>(value),
            Err(err) => Err::<T, CommError>(comm_error(io_error_kind(err), err)),
        }),
{
    match result {
        Ok(value) => Ok(value),
        Err(err) => Err(CommError::from(err)),
    }
}

/// An I/O error becomes a warning or drops the client, and is handed on as it is. It never makes a
/// servicer exit. These kinds are worth a warning, and no others.
pub proof fn lemma_io_errors_are_sorted(kind: IoErrorKind, err: std::io::Error)
    ensures
        kind is NotFound || kind is ConnectionReset || kind is WouldBlock || kind is InvalidInput
            || kind is InvalidData || kind is WriteZero || kind is Interrupted || kind is Other
            || kind is UnexpectedEof ==> comm_error(kind, err) == CommError::Warning(
            Warning::IoFailure(err),
        ),
        kind is PermissionDenied || kind is ConnectionRefused || kind is ConnectionAborted
            || kind is NotConnected || kind is AddrInUse || kind is AddrNotAvailable
            || kind is BrokenPipe || kind is AlreadyExists || kind is TimedOut || kind is Unlisted
            ==> comm_error(kind, err) == CommError::Drop(Drop::IoFailure(err)),
{
}

/// Two names are equal exactly when their texts are.
pub proof fn lemma_names_are_their_texts(a: Username, b: Username)
    ensures
        a.eq_spec(&b) <==> a.0@ == b.0@,
{
}

} // verus!
