//! The stream of a connection, owned by value.
use vstd::prelude::*;

verus! {

/// A connection's stream.
#[derive(Debug, Clone)]
pub struct ConnectionMetadata<T> {
    pub stream: T,
}

/// Streams that can hand out an independent handle to themselves.
pub trait ConnectionStreamClone {
    /// Whether cloning this stream may come back with `r`. A stream may say
    /// what its clones are; by default it says nothing.
    open spec fn clones(&self, r: Result<Self, std::io::Error>) -> bool where Self: Sized {
        true
    }

    fn clone_stream(&self) -> (r: Result<Self, std::io::Error>) where Self: Sized
        ensures
            self.clones(r),
    ;
}

impl<T: ConnectionStreamClone> ConnectionMetadata<T> {
    /// A metadata value over a fresh handle to the same stream; fails when
    /// the stream cannot be cloned.
    pub fn try_clone(&self) -> (r: Result<Self, std::io::Error>)
        ensures
            self.stream.clones(
                match r {
                    Ok(m) => Ok(m.stream),
                    Err(e) => Err(e),
                },
            ),
    {
        match self.stream.clone_stream() {
            Ok(s) => Ok(Self { stream: s }),
            Err(e) => Err(e),
        }
    }
}

} // verus!
