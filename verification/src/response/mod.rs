//! Responses: status, media type, headers and body, serialised as HTTP/1.1.
use std::sync::Arc;
use vstd::prelude::*;
use vstd::string::*;

pub mod builder;
pub mod content_type;
pub mod headers;
pub mod response;
pub mod status;
pub mod stream;

pub use self::content_type::ContentType;
pub use self::status::Status;

use self::builder::ResponseBuilder;
use self::content_type::content_type_text;
use self::headers::{header_get, keys_unique, Headers};
use self::status::{status_code, status_reason};
use crate::text::{bytes_to_vec, decimal, push_bytes, push_decimal, push_str, str_bytes, IntoBody, IntoText};
use crate::transport::metadata::Metadata;

verus! {

/// The header lines of `entries`, each `key: value` and CRLF, in order.
pub open spec fn header_lines(entries: Seq<(Seq<char>, Seq<char>)>) -> Seq<u8>
    decreases entries.len(),
{
    if entries.len() == 0 {
        Seq::empty()
    } else {
        header_lines(entries.drop_last()) + str_bytes(entries.last().0) + ": ".spec_bytes()
            + str_bytes(entries.last().1) + "\r\n".spec_bytes()
    }
}

/// Header lines from byte-string pairs, each `key: value` and CRLF.
pub open spec fn header_bytes_lines(entries: Seq<(Seq<u8>, Seq<u8>)>) -> Seq<u8>
    decreases entries.len(),
{
    if entries.len() == 0 {
        Seq::empty()
    } else {
        header_bytes_lines(entries.drop_last()) + entries.last().0 + ": ".spec_bytes() + entries.last().1
            + "\r\n".spec_bytes()
    }
}

/// A response on the wire: the status line, `Content-Type`,
/// `Content-Length`, the other headers in insertion order, a blank line and
/// the body.
pub open spec fn response_wire(
    status: Status,
    content_type: ContentType,
    headers: Seq<(Seq<char>, Seq<char>)>,
    body: Seq<u8>,
) -> Seq<u8> {
    "HTTP/1.1 ".spec_bytes() + decimal(status_code(status) as nat) + " ".spec_bytes() + str_bytes(
        status_reason(status),
    ) + "\r\n".spec_bytes() + "Content-Type: ".spec_bytes() + str_bytes(
        content_type_text(content_type),
    ) + "\r\n".spec_bytes() + "Content-Length: ".spec_bytes() + decimal(body.len()) + "\r\n".spec_bytes()
        + header_lines(headers) + "\r\n".spec_bytes() + body
}

/// A server-sent event on the wire: a `200 OK` head announcing an event
/// stream, then `data: ` and the text, each followed by a blank line.
pub open spec fn sse_wire(data: Seq<u8>) -> Seq<u8> {
    "HTTP/1.1 200 OK\r\nContent-Type: text/event-stream\r\nCache-Control: no-cache\r\nConnection: keep-alive\r\n\r\n".spec_bytes()
        + "data: ".spec_bytes() + data + "\n\n".spec_bytes() + "\n\n".spec_bytes()
}

/// Serialises the parts of a response.
pub fn write_response(status: Status, content_type: ContentType, headers: &Headers, body: &[u8]) -> (r: Vec<u8>)
    ensures
        r@ == response_wire(status, content_type, headers@, body@),
{
    let mut out: Vec<u8> = Vec::with_capacity(128);
    push_str(&mut out, "HTTP/1.1 ");
    push_decimal(&mut out, status.as_u16() as u64);
    push_str(&mut out, " ");
    push_str(&mut out, status.reason_phrase());
    push_str(&mut out, "\r\n");
    push_str(&mut out, "Content-Type: ");
    push_str(&mut out, content_type.as_str());
    push_str(&mut out, "\r\n");
    push_str(&mut out, "Content-Length: ");
    push_decimal(&mut out, body.len() as u64);
    push_str(&mut out, "\r\n");
    let ghost head = out@;
    let mut i: usize = 0;
    let n = headers.len();
    while i < n
        invariant
            n == headers@.len(),
            i <= n,
            out@ == head + header_lines(headers@.subrange(0, i as int)),
        decreases n - i,
    {
        let (k, v) = headers.entry(i);
        push_str(&mut out, k.as_str());
        push_str(&mut out, ": ");
        push_str(&mut out, v.as_str());
        push_str(&mut out, "\r\n");
        proof {
            let t = headers@.subrange(0, i + 1);
            assert(t.drop_last() =~= headers@.subrange(0, i as int));
            assert(t.last() == headers@[i as int]);
        }
        i = i + 1;
    }
    assert(headers@.subrange(0, n as int) =~= headers@);
    push_str(&mut out, "\r\n");
    push_bytes(&mut out, body);
    assert(out@ =~= response_wire(status, content_type, headers@, body@));
    out
}

/// A server-sent event carrying `data`.
pub fn sse_message(data: &str) -> (r: Vec<u8>)
    ensures
        r@ == sse_wire(data.spec_bytes()),
{
    let mut out: Vec<u8> = Vec::new();
    push_str(
        &mut out,
        "HTTP/1.1 200 OK\r\nContent-Type: text/event-stream\r\nCache-Control: no-cache\r\nConnection: keep-alive\r\n\r\n",
    );
    push_str(&mut out, "data: ");
    push_str(&mut out, data);
    push_str(&mut out, "\n\n");
    push_str(&mut out, "\n\n");
    assert(out@ =~= sse_wire(data.spec_bytes()));
    out
}

/// A response under construction, bound to the connection it will be
/// written to.
pub struct Response<M: Metadata + ?Sized = dyn Metadata> {
    pub status: Status,
    pub body: Vec<u8>,
    pub content_type: ContentType,
    pub headers: Headers,
    pub metadata: Arc<M>,
}

impl<M: Metadata + ?Sized> Clone for Response<M> {
    /// A copy bound to the same connection.
    fn clone(&self) -> (r: Self)
        ensures
            r.status == self.status,
            r.body@ == self.body@,
            r.content_type == self.content_type,
            r.headers@ == self.headers@,
            r.metadata == self.metadata,
    {
        Response {
            status: self.status,
            body: bytes_to_vec(self.body.as_slice()),
            content_type: self.content_type,
            headers: self.headers.clone(),
            metadata: Arc::clone(&self.metadata),
        }
    }
}

impl<M: Metadata + ?Sized> Response<M> {
    /// A response with no extra headers.
    pub fn new<B: IntoBody>(metadata: Arc<M>, status: Status, body: B, content_type: ContentType) -> (r: Response<M>)
        ensures
            r.status == status,
            r.body@ == body.body_view(),
            r.content_type == content_type,
            r.headers@ == Seq::<(Seq<char>, Seq<char>)>::empty(),
            r.metadata == metadata,
    {
        let bytes = body.into_body();
        let headers = Headers::new();
        Response { status: status, body: bytes, content_type: content_type, headers: headers, metadata: metadata }
    }

    /// The response as bytes on the wire.
    pub fn build(self) -> (r: Vec<u8>)
        ensures
            r@ == response_wire(self.status, self.content_type, self.headers@, self.body@),
    {
        ResponseBuilder::new(self).build()
    }

    /// Adds a header unless one with the same key is already set.
    pub fn header<K: IntoText, V: IntoText>(&mut self, key: K, value: V) -> (r: &mut Self)
        ensures
            r.headers@ == (if header_get(old(self).headers@, key.text_view()) is Some {
                old(self).headers@
            } else {
                old(self).headers@.push((key.text_view(), value.text_view()))
            }),
            keys_unique(r.headers@),
            r.status == old(self).status,
            r.body == old(self).body,
            r.content_type == old(self).content_type,
            r.metadata == old(self).metadata,
            *final(self) == *final(r),
    {
        self.headers.insert_if_absent(key.into_text(), value.into_text());
        self
    }

    /// Sets the status.
    pub fn status(&mut self, status: Status) -> (r: &mut Self)
        ensures
            r.status == status,
            r.body == old(self).body,
            r.content_type == old(self).content_type,
            r.headers == old(self).headers,
            r.metadata == old(self).metadata,
            *final(self) == *final(r),
    {
        self.status = status;
        self
    }

    /// Replaces the body.
    pub fn body<B: IntoBody>(&mut self, body: B) -> (r: &mut Self)
        ensures
            r.body@ == body.body_view(),
            r.status == old(self).status,
            r.content_type == old(self).content_type,
            r.headers == old(self).headers,
            r.metadata == old(self).metadata,
            *final(self) == *final(r),
    {
        self.body = body.into_body();
        self
    }

    /// Sets the content type.
    pub fn content_type(&mut self, content_type: ContentType) -> (r: &mut Self)
        ensures
            r.content_type == content_type,
            r.status == old(self).status,
            r.body == old(self).body,
            r.headers == old(self).headers,
            r.metadata == old(self).metadata,
            *final(self) == *final(r),
    {
        self.content_type = content_type;
        self
    }

    /// Writes a server-sent event carrying `data` to the connection: the
    /// bytes of `sse_message(data)`, in one write whose outcome is returned.
    pub fn stream(&self, data: &str) -> (r: Result<(), std::io::Error>)
        ensures
            self.metadata.writes(sse_wire(data.spec_bytes()), r),
    {
        let message = sse_message(data);
        self.metadata.write(message.as_slice())
    }

    /// Writes the whole response to the connection, in one write whose
    /// outcome is returned.
    pub fn flush(&self) -> (r: Result<(), std::io::Error>)
        ensures
            self.metadata.writes(response_wire(self.status, self.content_type, self.headers@, self.body@), r),
    {
        let response = write_response(self.status, self.content_type, &self.headers, self.body.as_slice());
        self.metadata.write(response.as_slice())
    }
}

} // verus!
