//! A response as handlers fill it in: status, body, media type and headers,
//! and the connection it may be written to directly.
use std::sync::Arc;
use vstd::prelude::*;
use vstd::string::*;

use crate::response::headers::{header_get, keys_unique, Headers};
use crate::response::{response_wire, sse_message, sse_wire, write_response};
use crate::text::{
    byte_pos, find_byte, lead_count, lemma_boundary_near_ascii, lemma_byte_pos_from, lemma_lead_count, lemma_str_valid,
    opt_int, substr, to_owned_string, IntoBody,
};
use crate::transport::metadata::Metadata;
use crate::transport::not_connected;

pub use crate::response::content_type::ContentType;
pub use crate::response::status::Status;

verus! {

/// A response: status, body, media type and headers, and, when it is bound
/// to a connection, where server-sent events and the finished response can
/// be written straight away.
pub struct Response {
    pub status: Status,
    pub body: Vec<u8>,
    pub content_type: ContentType,
    pub headers: Headers,
    pub metadata: Option<Arc<dyn Metadata>>,
}

impl Response {
    /// A response with no extra headers, bound to no connection.
    pub fn new<B: IntoBody>(status: Status, body: B, content_type: ContentType) -> (r: Response)
        ensures
            r.status == status,
            r.body@ == body.body_view(),
            r.content_type == content_type,
            r.headers@ == Seq::<(Seq<char>, Seq<char>)>::empty(),
            r.metadata is None,
    {
        Response { status, body: body.into_body(), content_type, headers: Headers::new(), metadata: None }
    }

    /// Writes a server-sent event carrying `data` to the connection the
    /// response is bound to: the bytes of `sse_message(data)`, in one write
    /// whose outcome is returned. A response bound to no connection fails
    /// with `NotConnected`.
    pub fn stream(&self, data: &str) -> (r: Result<(), std::io::Error>)
        ensures
            match self.metadata {
                Some(m) => m.writes(sse_wire(data.spec_bytes()), r),
                None => r is Err,
            },
    {
        match &self.metadata {
            Some(metadata) => {
                let message = sse_message(data);
                metadata.write(message.as_slice())
            },
            None => Err(not_connected()),
        }
    }

    /// Writes the whole response to the connection it is bound to, in one
    /// write whose outcome is returned. A response bound to no connection
    /// fails with `NotConnected`.
    pub fn flush(&self) -> (r: Result<(), std::io::Error>)
        ensures
            match self.metadata {
                Some(m) => m.writes(response_wire(self.status, self.content_type, self.headers@, self.body@), r),
                None => r is Err,
            },
    {
        match &self.metadata {
            Some(metadata) => {
                let bytes = write_response(self.status, self.content_type, &self.headers, self.body.as_slice());
                metadata.write(bytes.as_slice())
            },
            None => Err(not_connected()),
        }
    }

    /// The response on the wire: status line, `Content-Type`,
    /// `Content-Length`, the other headers in insertion order, a blank line
    /// and the body.
    pub fn to_bytes(&self) -> (r: Vec<u8>)
        ensures
            r@ == response_wire(self.status, self.content_type, self.headers@, self.body@),
    {
        write_response(self.status, self.content_type, &self.headers, self.body.as_slice())
    }

    /// Adds a header unless one with the same key is already set.
    pub fn header(&mut self, key: String, value: String) -> (r: &mut Self)
        ensures
            r.headers@ == (if header_get(old(self).headers@, key@) is Some {
                old(self).headers@
            } else {
                old(self).headers@.push((key@, value@))
            }),
            keys_unique(r.headers@),
            r.status == old(self).status,
            r.body == old(self).body,
            r.content_type == old(self).content_type,
            r.metadata == old(self).metadata,
            *final(self) == *final(r),
    {
        self.headers.insert_if_absent(key, value);
        self
    }

    /// Adds a header unless one with the same key is already set (the same
    /// as [`Response::header`]).
    pub fn set_header(&mut self, key: String, value: String) -> (r: &mut Self)
        ensures
            r.headers@ == (if header_get(old(self).headers@, key@) is Some {
                old(self).headers@
            } else {
                old(self).headers@.push((key@, value@))
            }),
            keys_unique(r.headers@),
            r.status == old(self).status,
            r.body == old(self).body,
            r.content_type == old(self).content_type,
            r.metadata == old(self).metadata,
            *final(self) == *final(r),
    {
        self.header(key, value)
    }

    /// Sets the status.
    pub fn status(&mut self, status: Status) -> (r: &mut Self)
        ensures
            r.status == status,
            r.body == old(self).body,
            r.content_type == old(self).content_type,
            r.headers == old(self).headers,
            r.metadata == old(self).metadata,
            *final(self) == *final(r),
    {
        self.status = status;
        self
    }

    /// Replaces the body.
    pub fn body<B: IntoBody>(&mut self, body: B) -> (r: &mut Self)
        ensures
            r.body@ == body.body_view(),
            r.status == old(self).status,
            r.content_type == old(self).content_type,
            r.headers == old(self).headers,
            r.metadata == old(self).metadata,
            *final(self) == *final(r),
    {
        self.body = body.into_body();
        self
    }

    /// Sets the content type.
    pub fn content_type(&mut self, content_type: ContentType) -> (r: &mut Self)
        ensures
            r.content_type == content_type,
            r.status == old(self).status,
            r.body == old(self).body,
            r.headers == old(self).headers,
            r.metadata == old(self).metadata,
            *final(self) == *final(r),
    {
        self.content_type = content_type;
        self
    }
}

/// `hs` with the header `key: value` added unless `key` is already set.
pub open spec fn header_added(hs: Seq<(Seq<char>, Seq<char>)>, key: Seq<char>, value: Seq<char>) -> Seq<(Seq<char>, Seq<char>)> {
    if header_get(hs, key) is Some {
        hs
    } else {
        hs.push((key, value))
    }
}

/// `hs` with the header `key: value` added when `value` is not empty.
pub open spec fn header_added_if_known(hs: Seq<(Seq<char>, Seq<char>)>, key: Seq<char>, value: Seq<char>) -> Seq<(Seq<char>, Seq<char>)> {
    if value.len() == 0 {
        hs
    } else {
        header_added(hs, key, value)
    }
}

/// A static file found for a request: its bytes, its content type, and its
/// entity tag and modification time as header values (empty when unknown).
pub struct StaticFile {
    pub content: Vec<u8>,
    pub content_type: ContentType,
    pub etag: String,
    pub last_modified: String,
}

/// Fills in the answer to a request for a static file: when one was found,
/// its bytes and content type, cacheable for an hour, with its `ETag` and
/// `Last-Modified` when known; otherwise `404 Not Found`.
pub fn fill_static(res: &mut Response, found: Option<StaticFile>)
    ensures
        final(res).metadata == old(res).metadata,
        match found {
            Some(f) => {
                &&& final(res).body@ == f.content@
                &&& final(res).content_type == f.content_type
                &&& final(res).status == old(res).status
                &&& final(res).headers@ == header_added_if_known(
                    header_added_if_known(
                        header_added(old(res).headers@, "Cache-control"@, "public, max-age=3600"@),
                        "ETag"@,
                        f.etag@,
                    ),
                    "Last-Modified"@,
                    f.last_modified@,
                )
            },
            None => {
                &&& final(res).body@ == "Not Found".spec_bytes()
                &&& final(res).status == Status::NotFound
                &&& final(res).content_type == old(res).content_type
                &&& final(res).headers == old(res).headers
            },
        },
{
    match found {
        Some(f) => {
            let etag_known = f.etag.as_str().unicode_len() > 0;
            let modified_known = f.last_modified.as_str().unicode_len() > 0;
            res.body(f.content);
            res.content_type(f.content_type);
            res.header(to_owned_string("Cache-control"), to_owned_string("public, max-age=3600"));
            if etag_known {
                res.header(to_owned_string("ETag"), f.etag);
            }
            if modified_known {
                res.header(to_owned_string("Last-Modified"), f.last_modified);
            }
        },
        None => {
            res.body("Not Found");
            res.status(Status::NotFound);
        },
    }
}

/// `q` names a parent directory: it has a `..` segment between `/`s or the
/// ends.
pub open spec fn has_parent_segment(q: Seq<u8>) -> bool {
    exists|i: int| #![trigger q[i]]
        0 <= i && i + 2 <= q.len() && q[i] == 46 && q[i + 1] == 46 && (i == 0 || q[i - 1] == 47) && (i + 2 == q.len()
            || q[i + 2] == 47)
}

/// `q` starts with a `.` segment (`.` alone, or followed by `/`).
pub open spec fn starts_with_dot_segment(q: Seq<u8>) -> bool {
    q.len() >= 1 && q[0] == 46 && (q.len() == 1 || q[1] == 47)
}

/// The file a request path names below the assets directory: the path
/// before any `?`, without its leading `/`s; none when it names a parent
/// directory or starts with a `.` segment, so that it stays inside the
/// directory and is made of plain names only.
pub open spec fn asset_path(p: Seq<u8>) -> Option<Seq<u8>> {
    let before_query = match byte_pos(p, 63) {
        Some(k) => p.subrange(0, k),
        None => p,
    };
    let q = before_query.subrange(lead_count(before_query, 47) as int, before_query.len() as int);
    if has_parent_segment(q) || starts_with_dot_segment(q) {
        None
    } else {
        Some(q)
    }
}

/// The relative path of the asset a request path names, if it names one
/// safely (see `asset_path`).
pub fn asset_relative_path(request_path: &str) -> (r: Option<&str>)
    ensures
        match r {
            Some(q) => asset_path(request_path.spec_bytes()) == Some(q.spec_bytes()),
            None => asset_path(request_path.spec_bytes()) is None,
        },
{
    let pb = request_path.as_bytes();
    proof {
        lemma_str_valid(request_path);
        lemma_byte_pos_from(pb@, 63, 0);
    }
    let end: usize = match find_byte(pb, 63, 0) {
        Some(k) => k,
        None => pb.len(),
    };
    let ghost bq = match byte_pos(pb@, 63) {
        Some(k) => pb@.subrange(0, k),
        None => pb@,
    };
    assert(pb@.subrange(0, end as int) =~= bq);
    let mut start: usize = 0;
    assert(bq.subrange(0, bq.len() as int) =~= bq);
    while start < end && pb[start] == 47
        invariant
            start <= end <= pb@.len(),
            pb@.subrange(0, end as int) == bq,
            start > 0 ==> pb@[start - 1] == 47,
            lead_count(bq, 47) == start + lead_count(bq.subrange(start as int, bq.len() as int), 47),
        decreases end - start,
    {
        assert(bq.subrange(start as int, bq.len() as int).drop_first() =~= bq.subrange(start + 1, bq.len() as int));
        start = start + 1;
    }
    assert(lead_count(bq.subrange(start as int, bq.len() as int), 47) == 0);
    let ghost q = bq.subrange(start as int, bq.len() as int);
    assert(q =~= pb@.subrange(start as int, end as int));
    let mut bad = false;
    let mut i: usize = start;
    while end - i > 1
        invariant
            start <= end <= pb@.len(),
            i <= end,
            q == pb@.subrange(start as int, end as int),
            start <= i,
            bad == exists|j: int| #![trigger q[j]]
                0 <= j && j < i - start && j + 2 <= q.len() && q[j] == 46 && q[j + 1] == 46 && (j == 0 || q[j - 1] == 47)
                    && (j + 2 == q.len() || q[j + 2] == 47),
        decreases end - i,
    {
        let ghost j = i - start;
        let here = pb[i] == 46 && pb[i + 1] == 46 && (i == start || pb[i - 1] == 47) && (i + 2 == end || pb[i + 2] == 47);
        assert(q[j] == pb@[i as int]);
        assert(q[j + 1] == pb@[i + 1]);
        assert(j > 0 ==> q[j - 1] == pb@[i - 1]);
        assert(j + 2 < q.len() ==> q[j + 2] == pb@[i + 2]);
        bad = bad || here;
        i = i + 1;
    }
    proof {
        if has_parent_segment(q) {
            let j = choose|j: int| #![trigger q[j]]
                0 <= j && j + 2 <= q.len() && q[j] == 46 && q[j + 1] == 46 && (j == 0 || q[j - 1] == 47) && (j + 2 == q.len()
                    || q[j + 2] == 47);
            assert(j < i - start);
        }
    }
    let dot_start = start < end && pb[start] == 46 && (start + 1 == end || pb[start + 1] == 47);
    if bad || dot_start {
        return None;
    }
    proof {
        lemma_boundary_near_ascii(pb@, start as int);
        lemma_boundary_near_ascii(pb@, end as int);
    }
    Some(substr(request_path, start, end))
}

} // verus!
