//! Connection plumbing shared by the servers: the stream behind a
//! connection, the write side responses use, graceful-shutdown timing and the
//! per-connection decisions of the event loop.
use vstd::prelude::*;

pub mod connection;
pub mod event;
pub mod metadata;
pub mod shutdown;

verus! {

#[verifier::external_type_specification]
#[verifier::external_body]
pub struct ExIoError(std::io::Error);

/// `std::io::Error::from(ErrorKind::NotConnected)`: the error of an
/// operation that needs a connection where there is none.
#[verifier::external_body]
pub(crate) fn not_connected() -> std::io::Error {
    std::io::Error::from(std::io::ErrorKind::NotConnected)
}

} // verus!
