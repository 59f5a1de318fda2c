use vstd::prelude::*;

verus! {

/// std's `io::Error`, carried through unchanged.
#[verifier::external_type_specification]
#[verifier::external_body]
pub struct ExIoError(std::io::Error);

/// shmem-ipc's `Error`, carried through unchanged.
#[verifier::external_type_specification]
#[verifier::external_body]
pub struct ExIpcError(shmem_ipc::Error);

/// What can go wrong on a connection.
#[derive(Debug)]
pub enum ShamanError {
    /// The other side closed the connection.
    ConnectionClosed,
    /// Nothing can be sent or received right now.
    WouldBlock,
    /// No connection has this id.
    ConnectionNotFound(usize),
    /// The connection with this id has not finished its handshake.
    ConnectionNotEstablished(usize),
    /// An operating-system error.
    IoError(std::io::Error),
    /// An error of the shared-memory rings.
    IPCError(shmem_ipc::Error),
}

impl ShamanError {
    /// Whether this is the `WouldBlock` error.
    pub fn is_would_block(&self) -> (b: bool)
        ensures
            b == (*self is WouldBlock),
    {
        match self {
            ShamanError::WouldBlock => true,
            _ => false,
        }
    }
}

/// The kind of an I/O error, as far as the library tells kinds apart.
#[derive(Debug, Clone, Copy, PartialEq, Eq, Structural)]
pub enum IoErrorKind {
    /// The operation would have blocked.
    WouldBlock,
    /// Any other kind.
    Other,
}

impl IoErrorKind {
    /// Whether an operation failed only because it would have blocked.
    pub fn is_would_block(&self) -> (b: bool)
        ensures
            b == (*self is WouldBlock),
    {
        match self {
            IoErrorKind::WouldBlock => true,
            _ => false,
        }
    }
}

/// The kind of an I/O error, as std's `io::Error::kind` reports it: fixed
/// when the error is made, so a function of the error alone.
pub uninterp spec fn io_error_kind_of(err: std::io::Error) -> IoErrorKind;

/// std's `io::Error::kind`: `WouldBlock` for that kind, `Other` for every
/// other. The result is the error's kind, `io_error_kind_of`; which kind an
/// error has is not stated.
#[verifier::external_body]
pub(crate) fn io_error_kind(err: &std::io::Error) -> (k: IoErrorKind)
    ensures
        k == io_error_kind_of(*err),
{
    match err.kind() {
        std::io::ErrorKind::WouldBlock => IoErrorKind::WouldBlock,
        _ => IoErrorKind::Other,
    }
}

/// Whether an I/O operation failed only because it would have blocked.
pub fn would_block(err: &std::io::Error) -> (b: bool)
    ensures
        b == (io_error_kind_of(*err) is WouldBlock),
{
    io_error_kind(err).is_would_block()
}

} // verus!
