//! The stream of a connection, shared between the event loop and responses.
use std::sync::Arc;
use vstd::prelude::*;

verus! {

/// A connection's stream, reference-counted so that responses can write to
/// it while the event loop keeps it.
pub struct ConnectionMetadata<S> {
    pub stream: Arc<S>,
}

impl<S> Clone for ConnectionMetadata<S> {
    /// Clones the reference to the stream, not the stream itself.
    fn clone(&self) -> (r: Self)
        ensures
            r.stream == self.stream,
    {
        Self { stream: Arc::clone(&self.stream) }
    }
}

/// Streams that can hand out an independent handle to themselves.
pub trait ConnectionStreamClone {
    /// Whether cloning this stream may come back with `r`. A stream may say
    /// what its clones are; by default it says nothing.
    open spec fn clones(&self, r: Result<Self, std::io::Error>) -> bool where Self: Sized {
        true
    }

    fn clone_stream(&self) -> (r: Result<Self, std::io::Error>) where Self: Sized
        ensures
            self.clones(r),
    ;
}

impl<T: ConnectionStreamClone> ConnectionMetadata<T> {
    /// A metadata value over a fresh handle to the same stream: the clone of
    /// the stream when cloning succeeds, its error otherwise.
    pub fn try_clone(&self) -> (r: Result<Self, std::io::Error>)
        ensures
            (*self.stream).clones(
                match r {
                    Ok(m) => Ok(*m.stream),
                    Err(e) => Err(e),
                },
            ),
    {
        match (&*self.stream).clone_stream() {
            Ok(s) => Ok(Self { stream: Arc::new(s) }),
            Err(e) => Err(e),
        }
    }
}

} // verus!
