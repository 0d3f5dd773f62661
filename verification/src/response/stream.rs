//! Streams a response can be written to.
use vstd::prelude::*;

verus! {

/// A stream that accepts whole buffers.
pub trait StreamWriter {
    /// Whether writing `data` to this stream may come back with `r`. A
    /// stream may say what its writes do; by default it says nothing.
    open spec fn writes(&self, data: Seq<u8>, r: Result<(), std::io::Error>) -> bool {
        true
    }

    /// Writes all of `data`.
    fn write(&self, data: &[u8]) -> (r: Result<(), std::io::Error>)
        ensures
            self.writes(data@, r),
    ;
}

} // verus!
