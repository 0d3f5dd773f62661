//! The write side of a connection whose stream is owned by value.
use vstd::prelude::*;

use crate::response::stream::StreamWriter;
use crate::server::connection::{ConnectionMetadata, ConnectionStreamClone};

verus! {

/// Where a response writes its bytes.
pub trait Metadata: Send + Sync {
    /// Whether writing `data` may come back with `r`.
    spec fn writes(&self, data: Seq<u8>, r: Result<(), std::io::Error>) -> bool;

    /// Writes all of `data`.
    fn write(&self, data: &[u8]) -> (r: Result<(), std::io::Error>)
        ensures
            self.writes(data@, r),
    ;
}

impl<T> Metadata for ConnectionMetadata<T> where
    T: ConnectionStreamClone + StreamWriter + Send + Sync + 'static,
 {
    /// A write to the connection is a write to its stream.
    open spec fn writes(&self, data: Seq<u8>, r: Result<(), std::io::Error>) -> bool {
        self.stream.writes(data, r)
    }

    fn write(&self, data: &[u8]) -> (r: Result<(), std::io::Error>) {
        self.stream.write(data)
    }
}

} // verus!
