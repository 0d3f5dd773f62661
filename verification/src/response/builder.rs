//! Turns a finished response into bytes.
use vstd::prelude::*;

use crate::response::{response_wire, write_response, Response};
use crate::transport::metadata::Metadata;

verus! {

/// Serialises a response.
pub struct ResponseBuilder<M: Metadata + ?Sized = dyn Metadata> {
    response: Response<M>,
}

impl<M: Metadata + ?Sized> ResponseBuilder<M> {
    /// The bytes this builder will produce.
    pub closed spec fn wire(&self) -> Seq<u8> {
        response_wire(
            self.response.status,
            self.response.content_type,
            self.response.headers@,
            self.response.body@,
        )
    }

    /// A builder for `response`.
    pub fn new(response: Response<M>) -> (r: Self)
        ensures
            r.wire() == response_wire(response.status, response.content_type, response.headers@, response.body@),
    {
        Self { response }
    }

    /// The response on the wire: status line, `Content-Type`,
    /// `Content-Length`, the other headers, a blank line and the body.
    pub fn build(self) -> (r: Vec<u8>)
        ensures
            r@ == self.wire(),
    {
        write_response(
            self.response.status,
            self.response.content_type,
            &self.response.headers,
            self.response.body.as_slice(),
        )
    }
}

} // verus!
