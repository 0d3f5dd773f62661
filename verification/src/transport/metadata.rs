//! The write side of a connection, as responses see it.
use vstd::prelude::*;

use crate::response::stream::StreamWriter;
use crate::transport::connection::ConnectionMetadata;

verus! {

/// Where a response writes its bytes.
pub trait Metadata: Send + Sync {
    /// Whether writing `buf` may come back with `r`.
    spec fn writes(&self, buf: Seq<u8>, r: Result<(), std::io::Error>) -> bool;

    /// Writes all of `buf`.
    fn write(&self, buf: &[u8]) -> (r: Result<(), std::io::Error>)
        ensures
            self.writes(buf@, r),
    ;
}

impl<S> Metadata for ConnectionMetadata<S> where S: StreamWriter + Send + Sync + 'static {
    /// A write to the connection is a write to its stream.
    open spec fn writes(&self, buf: Seq<u8>, r: Result<(), std::io::Error>) -> bool {
        self.stream.writes(buf, r)
    }

    fn write(&self, buf: &[u8]) -> (r: Result<(), std::io::Error>) {
        (&*self.stream).write(buf)
    }
}

} // verus!
