//! HTTP/1.1 request parsing and the accessors handlers use.
use vstd::prelude::*;

pub mod form;
pub mod multipart;
use vstd::string::*;
use vstd::utf8::*;

use self::multipart::{boundary_spec, extract_boundary_from_content_type, multipart_spec, parse_multipart, FieldView, FormField};
use crate::text::{to_owned_string, 
    byte_pos, byte_pos_from, byte_pos_in, eq_ignore_case, find_bytes, find_from, lemma_byte_pos_from,
    lemma_boundary_near_ascii, lemma_decode_of_bytes, lemma_find_from, lemma_lead_ows,
    lemma_str_valid, lemma_trail_ows, lead_ows, memchr_in, opt_int, parse_uint, parse_uint_str,
    rskip_ows, skip_ows, str_bytes, str_from_utf8, substr, trim_ows, trim_str, trim_ws, bytes_to_vec, slice_range, bytes_eq_ignore_case,
    bytes_equal, find_byte, lowercase_string, unicode_lowercase, matches_at, lemma_byte_pos_from_unique,
};

verus! {

broadcast use vstd::seq_lib::group_seq_properties;

/// The bytes of a pair of strings.
pub type BytePair = (Seq<u8>, Seq<u8>);

/// What a request holds, as byte strings.
pub struct RequestView {
    pub method: Seq<u8>,
    pub path: Seq<u8>,
    pub version: Seq<u8>,
    pub headers: Seq<BytePair>,
    pub params: Seq<BytePair>,
    pub query_params: Seq<BytePair>,
    pub body: Seq<u8>,
}

/// An HTTP request whose text fields borrow from the buffer it was parsed from.
pub struct Request<'a> {
    /// The HTTP method (e.g. "GET", "POST").
    pub method: &'a str,
    /// The request path, without its query string.
    pub path: &'a str,
    /// The HTTP version (e.g. "HTTP/1.1").
    pub version: &'a str,
    /// Request headers as key-value pairs, in arrival order.
    pub headers: Vec<(&'a str, &'a str)>,
    /// Route parameters captured while routing.
    pub params: Vec<(String, String)>,
    /// Query parameters from the URL.
    pub query_params: Vec<(&'a str, &'a str)>,
    /// Raw body of the request.
    pub body: Vec<u8>,
}

pub open spec fn str_pairs_view<'a>(s: Seq<(&'a str, &'a str)>) -> Seq<BytePair> {
    s.map_values(|p: (&'a str, &'a str)| (p.0.spec_bytes(), p.1.spec_bytes()))
}

pub open spec fn string_pairs_view(s: Seq<(String, String)>) -> Seq<BytePair> {
    s.map_values(|p: (String, String)| (str_bytes(p.0@), str_bytes(p.1@)))
}

impl<'a> View for Request<'a> {
    type V = RequestView;

    open spec fn view(&self) -> RequestView {
        RequestView {
            method: self.method.spec_bytes(),
            path: self.path.spec_bytes(),
            version: self.version.spec_bytes(),
            headers: str_pairs_view(self.headers@),
            params: string_pairs_view(self.params@),
            query_params: str_pairs_view(self.query_params@),
            body: self.body@,
        }
    }
}

pub open spec fn crlf() -> Seq<u8> {
    seq![13u8, 10u8]
}

pub open spec fn crlf_crlf() -> Seq<u8> {
    seq![13u8, 10u8, 13u8, 10u8]
}

/// `HTTP/1.1`
pub open spec fn http_1_1() -> Seq<u8> {
    seq![72u8, 84u8, 84u8, 80u8, 47u8, 49u8, 46u8, 49u8]
}

/// `content-length`
pub open spec fn content_length_name() -> Seq<u8> {
    seq![99u8, 111u8, 110u8, 116u8, 101u8, 110u8, 116u8, 45u8, 108u8, 101u8, 110u8, 103u8, 116u8, 104u8]
}

/// `content-type`
pub open spec fn content_type_name() -> Seq<u8> {
    seq![99u8, 111u8, 110u8, 116u8, 101u8, 110u8, 116u8, 45u8, 116u8, 121u8, 112u8, 101u8]
}

/// End of the head of a request: just past the first blank line.
pub open spec fn header_end_spec(buf: Seq<u8>) -> Option<int> {
    match find_from(buf, crlf_crlf(), 0) {
        Some(k) => Some(k + 4),
        None => None,
    }
}

/// End of the line that starts at `pos`: the next CRLF, or the end.
pub open spec fn line_end(s: Seq<u8>, pos: int) -> int {
    match find_from(s, crlf(), pos) {
        Some(k) => k,
        None => s.len() as int,
    }
}

/// The header a line `s[pos..end]` holds: the text before its first colon
/// and the text after it without surrounding SP / HTAB; none without a colon.
pub open spec fn header_entry(s: Seq<u8>, pos: int, end: int) -> Seq<BytePair> {
    match byte_pos_in(s, 58, pos, end) {
        Some(c) => seq![(s.subrange(pos, c), trim_ows(s.subrange(c + 1, end)))],
        None => Seq::empty(),
    }
}

/// The headers of the lines from `pos` on, up to the first empty line.
pub open spec fn header_lines_from(s: Seq<u8>, pos: int) -> Seq<BytePair>
    decreases s.len() - pos,
{
    if pos < 0 || pos > s.len() {
        Seq::empty()
    } else {
        match find_from(s, crlf(), pos) {
            Some(k) => {
                proof {
                    lemma_find_from(s, crlf(), pos);
                }
                if k == pos {
                    Seq::empty()
                } else {
                    header_entry(s, pos, k) + header_lines_from(s, k + 2)
                }
            },
            None => if pos == s.len() {
                Seq::empty()
            } else {
                header_entry(s, pos, s.len() as int)
            },
        }
    }
}

/// A header line is split at its first colon: for a line `name:value` and
/// its CRLF, where the name holds no colon and the line no carriage return,
/// the headers read from that line start with the name and the value without
/// surrounding SP / HTAB, so the value keeps every colon it holds.
pub proof fn law_header_line_splits_at_first_colon(s: Seq<u8>, pos: int, name: Seq<u8>, value: Seq<u8>)
    requires
        0 <= pos,
        pos + name.len() + 1 + value.len() + 2 <= s.len(),
        s.subrange(pos, pos + name.len() + 1 + value.len() + 2) == name + seq![58u8] + value + crlf(),
        forall|i: int| 0 <= i < name.len() ==> name[i] != 58 && name[i] != 13,
        forall|i: int| 0 <= i < value.len() ==> value[i] != 13,
    ensures
        header_lines_from(s, pos).len() >= 1,
        header_lines_from(s, pos)[0] == (name, trim_ows(value)),
        lookup_ci(header_lines_from(s, pos), name) == Some(trim_ows(value)),
{
    let c = pos + name.len();
    let k = c + 1 + value.len();
    let line = name + seq![58u8] + value + crlf();
    assert forall|j: int| pos <= j < k implies s[j] != 13 by {
        assert(s[j] == line[j - pos]);
        if j < c {
            assert(line[j - pos] == name[j - pos]);
        } else if j > c {
            assert(line[j - pos] == value[j - c - 1]);
        }
    }
    assert(s[k] == line[k - pos]);
    assert(s[k + 1] == line[k + 1 - pos]);
    assert(s.subrange(k, k + 2) =~= crlf());
    assert(matches_at(s, k, crlf()));
    lemma_find_from(s, crlf(), pos);
    match find_from(s, crlf(), pos) {
        Some(k2) => {
            if k2 < k {
                assert(s.subrange(k2, k2 + 2)[0] == s[k2]);
            }
            assert(k2 == k);
        },
        None => {},
    }
    assert forall|j: int| pos <= j < c implies s[j] != 58 by {
        assert(s[j] == line[j - pos]);
        assert(line[j - pos] == name[j - pos]);
    }
    assert(s[c] == line[c - pos]);
    lemma_byte_pos_from_unique(s, 58, pos, c);
    assert(s.subrange(pos, c) =~= name);
    assert(s.subrange(c + 1, k) =~= value) by {
        assert forall|j: int| 0 <= j < value.len() implies s.subrange(c + 1, k)[j] == value[j] by {
            assert(s[c + 1 + j] == line[c + 1 + j - pos]);
        }
    }
    assert(header_entry(s, pos, k) == seq![(name, trim_ows(value))]);
    assert(eq_ignore_case(name, name));
}

/// The `key=value` pairs of the `&`-separated segments of `q` from `start`
/// on; a segment without `=` contributes nothing.
pub open spec fn query_pairs_from(q: Seq<u8>, start: int) -> Seq<BytePair>
    decreases q.len() - start,
{
    if start < 0 || start >= q.len() {
        Seq::empty()
    } else {
        let end = match byte_pos_from(q, 38, start) {
            Some(e) => e,
            None => q.len() as int,
        };
        proof {
            lemma_byte_pos_from(q, 38, start);
        }
        let here = match byte_pos_in(q, 61, start, end) {
            Some(eq) => seq![(q.subrange(start, eq), q.subrange(eq + 1, end))],
            None => Seq::empty(),
        };
        if end < q.len() {
            here + query_pairs_from(q, end + 1)
        } else {
            here
        }
    }
}

/// A request target split into its path and its query parameters.
pub open spec fn path_and_query(full: Seq<u8>) -> (Seq<u8>, Seq<BytePair>) {
    match byte_pos(full, 63) {
        Some(q) => (full.subrange(0, q), query_pairs_from(full.subrange(q + 1, full.len() as int), 0)),
        None => (full, Seq::empty()),
    }
}

/// The value of the first pair whose key equals `name` exactly.
pub open spec fn lookup_exact(pairs: Seq<BytePair>, name: Seq<u8>) -> Option<Seq<u8>>
    decreases pairs.len(),
{
    if pairs.len() == 0 {
        None
    } else if pairs[0].0 == name {
        Some(pairs[0].1)
    } else {
        lookup_exact(pairs.drop_first(), name)
    }
}

/// The value of the first pair whose key equals `name` up to ASCII case.
pub open spec fn lookup_ci(pairs: Seq<BytePair>, name: Seq<u8>) -> Option<Seq<u8>>
    decreases pairs.len(),
{
    if pairs.len() == 0 {
        None
    } else if eq_ignore_case(pairs[0].0, name) {
        Some(pairs[0].1)
    } else {
        lookup_ci(pairs.drop_first(), name)
    }
}

/// The body length a header list announces: its `Content-Length` value,
/// trimmed of Unicode whitespace, read as a decimal `usize`.
pub open spec fn content_length_spec(headers: Seq<BytePair>) -> Option<nat> {
    match lookup_ci(headers, content_length_name()) {
        Some(v) => match parse_uint(
            str_bytes(trim_ws(decode_utf8(v))),
            10,
            usize::MAX as nat,
        ) {
            Ok(n) => Some(n),
            Err(_) => None,
        },
        None => None,
    }
}

/// What parsing a buffer gives: `None` when the head is incomplete, is not
/// UTF-8, has a malformed request line or a version other than HTTP/1.1, or
/// when fewer body bytes arrived than `Content-Length` announces.
pub open spec fn parse_spec(buf: Seq<u8>) -> Option<RequestView> {
    match header_end_spec(buf) {
        None => None,
        Some(he) => {
            let head = buf.subrange(0, he);
            let e1 = line_end(head, 0);
            let rl = head.subrange(0, e1);
            if !valid_utf8(head) {
                None
            } else {
                match byte_pos(rl, 32) {
                    None => None,
                    Some(s1) => match byte_pos_from(rl, 32, s1 + 1) {
                        None => None,
                        Some(s2) => {
                            let method = rl.subrange(0, s1);
                            let full = rl.subrange(s1 + 1, s2);
                            let version = rl.subrange(s2 + 1, rl.len() as int);
                            if method.len() == 0 || full.len() == 0 || version != http_1_1() {
                                None
                            } else {
                                let headers = header_lines_from(head, e1 + 2);
                                let cl = content_length_spec(headers);
                                if cl matches Some(n) && buf.len() < he + n {
                                    None
                                } else {
                                    let body_len = match cl {
                                        Some(n) => n as int,
                                        None => buf.len() - he,
                                    };
                                    Some(
                                        RequestView {
                                            method,
                                            path: path_and_query(full).0,
                                            version,
                                            headers,
                                            params: Seq::empty(),
                                            query_params: path_and_query(full).1,
                                            body: buf.subrange(he, he + body_len),
                                        },
                                    )
                                }
                            }
                        },
                    },
                }
            }
        },
    }
}

/// The media type of a header list: the `Content-Type` value before any
/// `;`, trimmed and lowercased; none when absent or blank.
pub open spec fn mime_spec(headers: Seq<BytePair>) -> Option<Seq<char>> {
    match lookup_ci(headers, content_type_name()) {
        Some(v) => {
            let seg = match byte_pos(v, 59) {
                Some(k) => v.subrange(0, k),
                None => v,
            };
            let t = trim_ws(decode_utf8(seg));
            if t.len() == 0 {
                None
            } else {
                Some(crate::text::unicode_lowercase(t))
            }
        },
        None => None,
    }
}

/// So a parsed request whose first header line is `name:value` (the name
/// without a colon, the line without a carriage return) answers a lookup of
/// that name with the whole value, trimmed of SP / HTAB, colons included.
pub proof fn law_parsed_header_keeps_colons_in_value(buf: Seq<u8>, name: Seq<u8>, value: Seq<u8>)
    requires
        parse_spec(buf) is Some,
        ({
            let head = buf.subrange(0, header_end_spec(buf)->0);
            let p = line_end(head, 0) + 2;
            &&& p + name.len() + 1 + value.len() + 2 <= head.len()
            &&& head.subrange(p, p + name.len() + 1 + value.len() + 2) == name + seq![58u8] + value + crlf()
        }),
        forall|i: int| 0 <= i < name.len() ==> name[i] != 58 && name[i] != 13,
        forall|i: int| 0 <= i < value.len() ==> value[i] != 13,
    ensures
        lookup_ci(parse_spec(buf)->0.headers, name) == Some(trim_ows(value)),
{
    let head = buf.subrange(0, header_end_spec(buf)->0);
    lemma_find_from(head, crlf(), 0);
    let p = line_end(head, 0) + 2;
    law_header_line_splits_at_first_colon(head, p, name, value);
}

/// `byte_pos_in` over the whole sequence is `byte_pos_from`.
pub proof fn lemma_byte_pos_in_whole(s: Seq<u8>, b: u8, from: int)
    requires
        0 <= from,
    ensures
        byte_pos_in(s, b, from, s.len() as int) == byte_pos_from(s, b, from),
{
    lemma_byte_pos_from(s, b, from);
}

impl<'a> Request<'a> {
    /// Finds the end of the request head: the index just past the first
    /// blank line (`\r\n\r\n`).
    fn find_header_end(buf: &[u8]) -> (r: Option<usize>)
        ensures
            opt_int(r) == header_end_spec(buf@),
            r matches Some(e) ==> 4 <= e <= buf@.len() && crate::text::matches_at(
                buf@,
                e - 4,
                crlf_crlf(),
            ),
    {
        let n = buf.len();
        let pat: [u8; 4] = [13, 10, 13, 10];
        let pat_s = pat.as_slice();
        assert(pat_s@ =~= crlf_crlf());
        match find_bytes(buf, pat_s, 0) {
            Some(k) => {
                proof {
                    lemma_find_from(buf@, crlf_crlf(), 0);
                    assert(find_from(buf@, crlf_crlf(), 0) == Some(k as int));
                    assert(crlf_crlf().len() == 4);
                }
                Some(k + 4)
            },
            None => None,
        }
    }

    /// Splits the query string `query` into its `key=value` pairs.
    fn parse_query(query: &'a str) -> (r: Vec<(&'a str, &'a str)>)
        ensures
            str_pairs_view(r@) == query_pairs_from(query.spec_bytes(), 0),
    {
        let bytes = query.as_bytes();
        let ghost qb = query.spec_bytes();
        proof {
            lemma_str_valid(query);
        }
        let mut params: Vec<(&'a str, &'a str)> = Vec::with_capacity(4);
        let mut start: usize = 0;
        while start < bytes.len()
            invariant
                bytes@ == qb,
                qb == query.spec_bytes(),
                valid_utf8(qb),
                start <= qb.len(),
                start == 0 || qb[start - 1] == 38,
                str_pairs_view(params@) + query_pairs_from(qb, start as int) == query_pairs_from(
                    qb,
                    0,
                ),
            decreases qb.len() - start,
        {
            proof {
                lemma_byte_pos_in_whole(qb, 38, start as int);
                lemma_byte_pos_from(qb, 38, start as int);
            }
            let end: usize = match memchr_in(38, bytes, start, bytes.len()) {
                Some(e) => e,
                None => bytes.len(),
            };
            let ghost here: Seq<(Seq<u8>, Seq<u8>)> = match byte_pos_in(qb, 61, start as int, end as int) {
                Some(eq) => seq![(qb.subrange(start as int, eq), qb.subrange(eq + 1, end as int))],
                None => Seq::empty(),
            };
            let ghost old_params = str_pairs_view(params@);
            proof {
                lemma_byte_pos_from(qb, 61, start as int);
            }
            match memchr_in(61, bytes, start, end) {
                Some(eq) => {
                    proof {
                        assert(byte_pos_in(qb, 61, start as int, end as int) == Some(eq as int));
                        assert(byte_pos_from(qb, 61, start as int) == Some(eq as int));
                        assert(start <= eq < end);
                        lemma_boundary_near_ascii(qb, start as int);
                        lemma_boundary_near_ascii(qb, eq as int);
                        lemma_boundary_near_ascii(qb, eq + 1);
                        lemma_boundary_near_ascii(qb, end as int);
                    }
                    let k = substr(query, start, eq);
                    let v = substr(query, eq + 1, end);
                    params.push((k, v));
                },
                None => {},
            }
            assert(str_pairs_view(params@) =~= old_params + here);
            if end == bytes.len() {
                assert(query_pairs_from(qb, start as int) == here);
                assert(str_pairs_view(params@) + query_pairs_from(qb, end as int) =~= str_pairs_view(params@));
                return params;
            }
            assert(query_pairs_from(qb, start as int) == here + query_pairs_from(qb, end + 1));
            start = end + 1;
        }
        assert(str_pairs_view(params@) + query_pairs_from(qb, start as int) =~= str_pairs_view(params@));
        params
    }

    /// Splits a request target into the path and its query parameters.
    fn parse_path_and_query(full_path: &'a str) -> (r: (&'a str, Vec<(&'a str, &'a str)>))
        ensures
            (r.0.spec_bytes(), str_pairs_view(r.1@)) == path_and_query(full_path.spec_bytes()),
    {
        let bytes = full_path.as_bytes();
        let ghost fb = full_path.spec_bytes();
        proof {
            lemma_str_valid(full_path);
            lemma_byte_pos_in_whole(fb, 63, 0);
            lemma_byte_pos_from(fb, 63, 0);
        }
        match memchr_in(63, bytes, 0, bytes.len()) {
            None => {
                let v: Vec<(&'a str, &'a str)> = Vec::with_capacity(4);
                assert(str_pairs_view(v@) =~= Seq::<BytePair>::empty());
                (full_path, v)
            },
            Some(qpos) => {
                proof {
                    lemma_boundary_near_ascii(fb, 0);
                    lemma_boundary_near_ascii(fb, qpos as int);
                    lemma_boundary_near_ascii(fb, qpos + 1);
                    lemma_boundary_near_ascii(fb, fb.len() as int);
                }
                let path = substr(full_path, 0, qpos);
                let query = substr(full_path, qpos + 1, bytes.len());
                let params = Self::parse_query(query);
                (path, params)
            },
        }
    }

    /// Parses the header lines of `head` that start at `start`, up to the
    /// first empty line. Lines without a colon are skipped; values lose their
    /// surrounding SP / HTAB.
    #[verifier::rlimit(40)]
    fn parse_headers(head: &'a str, start: usize) -> (r: Vec<(&'a str, &'a str)>)
        requires
            start <= head.spec_bytes().len(),
            start == 0 || head.spec_bytes()[start - 1] == 10,
        ensures
            str_pairs_view(r@) == header_lines_from(head.spec_bytes(), start as int),
    {
        let bytes = head.as_bytes();
        let ghost hb = head.spec_bytes();
        proof {
            lemma_str_valid(head);
        }
        let crlf_arr: [u8; 2] = [13, 10];
        let crlf_s = crlf_arr.as_slice();
        assert(crlf_s@ =~= crlf());
        let mut headers: Vec<(&'a str, &'a str)> = Vec::with_capacity(12);
        let mut pos: usize = start;
        let n = bytes.len();
        loop
            invariant
                hb.len() <= usize::MAX,
                bytes@ == hb,
                hb == head.spec_bytes(),
                crlf_s@ == crlf(),
                valid_utf8(hb),
                pos <= hb.len(),
                pos == 0 || hb[pos - 1] == 10,
                str_pairs_view(headers@) + header_lines_from(hb, pos as int) == header_lines_from(
                    hb,
                    start as int,
                ),
            decreases hb.len() - pos,
        {
            proof {
                lemma_find_from(hb, crlf(), pos as int);
            }
            let found = find_bytes(bytes, crlf_s, pos);
            let end: usize = match found {
                Some(k) => k,
                None => bytes.len(),
            };
            if end == pos {
                assert(header_lines_from(hb, pos as int) == Seq::<BytePair>::empty());
                assert(str_pairs_view(headers@) + header_lines_from(hb, pos as int) =~= str_pairs_view(headers@));
                return headers;
            }
            proof {
                if found is Some {
                    assert(hb[end as int] == 13) by {
                        assert(hb.subrange(end as int, end + 2) == crlf());
                        assert(hb.subrange(end as int, end + 2)[0] == hb[end as int]);
                    }
                }
            }
            let ghost old_h = str_pairs_view(headers@);
            proof {
                lemma_byte_pos_from(hb, 58, pos as int);
            }
            match memchr_in(58, bytes, pos, end) {
                Some(colon) => {
                    let vs = skip_ows(bytes, colon + 1, end);
                    let ve = rskip_ows(bytes, vs, end);
                    proof {
                        let t = hb.subrange(colon + 1, end as int);
                        lemma_lead_ows(t);
                        let u = hb.subrange(vs as int, end as int);
                        assert(u =~= t.subrange(lead_ows(t) as int, t.len() as int));
                        lemma_trail_ows(u);
                        assert(trim_ows(t) =~= hb.subrange(vs as int, ve as int));
                        lemma_boundary_near_ascii(hb, pos as int);
                        lemma_boundary_near_ascii(hb, colon as int);
                        if vs > colon + 1 {
                            assert(hb[vs - 1] == t[vs - 1 - (colon + 1)]);
                        }
                        lemma_boundary_near_ascii(hb, vs as int);
                        if ve < end {
                            assert(hb[ve as int] == u[ve - vs]);
                        }
                        lemma_boundary_near_ascii(hb, ve as int);
                    }
                    let key = substr(head, pos, colon);
                    let value = substr(head, vs, ve);
                    headers.push((key, value));
                },
                None => {},
            }
            assert(str_pairs_view(headers@) =~= old_h + header_entry(hb, pos as int, end as int));
            match found {
                None => {
                    assert(header_lines_from(hb, pos as int) == header_entry(hb, pos as int, end as int));
                    assert(str_pairs_view(headers@) =~= header_lines_from(hb, start as int));
                    return headers;
                },
                Some(_) => {
                    assert(header_lines_from(hb, pos as int) == header_entry(hb, pos as int, end as int)
                        + header_lines_from(hb, end + 2));
                    assert(hb[end + 1] == 10) by {
                        assert(hb.subrange(end as int, end + 2)[1] == hb[end + 1]);
                    }
                    pos = end + 2;
                },
            }
        }
    }
}

/// Looking up from index `i` on is looking up in the suffix.
proof fn lemma_lookup_step(pairs: Seq<BytePair>, i: int)
    requires
        0 <= i < pairs.len(),
    ensures
        pairs.subrange(i, pairs.len() as int).drop_first() =~= pairs.subrange(i + 1, pairs.len() as int),
        pairs.subrange(i, pairs.len() as int)[0] == pairs[i],
{
}

/// The value of the first pair whose key equals `name` up to ASCII case.
fn find_value_ci<'a>(pairs: &Vec<(&'a str, &'a str)>, name: &[u8]) -> (r: Option<&'a str>)
    ensures
        match r {
            Some(v) => lookup_ci(str_pairs_view(pairs@), name@) == Some(v.spec_bytes()),
            None => lookup_ci(str_pairs_view(pairs@), name@) is None,
        },
{
    let ghost view = str_pairs_view(pairs@);
    let mut i: usize = 0;
    assert(view.subrange(0, view.len() as int) =~= view);
    while i < pairs.len()
        invariant
            view == str_pairs_view(pairs@),
            i <= pairs@.len(),
            lookup_ci(view, name@) == lookup_ci(view.subrange(i as int, view.len() as int), name@),
        decreases pairs@.len() - i,
    {
        proof {
            lemma_lookup_step(view, i as int);
        }
        let (k, v) = pairs[i];
        if bytes_eq_ignore_case(k.as_bytes(), name) {
            return Some(v);
        }
        i = i + 1;
    }
    None
}

/// The value of the first pair whose key equals `name` exactly.
fn find_value_exact<'a>(pairs: &Vec<(&'a str, &'a str)>, name: &[u8]) -> (r: Option<&'a str>)
    ensures
        match r {
            Some(v) => lookup_exact(str_pairs_view(pairs@), name@) == Some(v.spec_bytes()),
            None => lookup_exact(str_pairs_view(pairs@), name@) is None,
        },
{
    let ghost view = str_pairs_view(pairs@);
    let mut i: usize = 0;
    assert(view.subrange(0, view.len() as int) =~= view);
    while i < pairs.len()
        invariant
            view == str_pairs_view(pairs@),
            i <= pairs@.len(),
            lookup_exact(view, name@) == lookup_exact(view.subrange(i as int, view.len() as int), name@),
        decreases pairs@.len() - i,
    {
        proof {
            lemma_lookup_step(view, i as int);
        }
        let (k, v) = pairs[i];
        if bytes_equal(k.as_bytes(), name) {
            return Some(v);
        }
        i = i + 1;
    }
    None
}

impl<'a> Request<'a> {
    /// The body length announced by `Content-Length`, if present and a
    /// valid decimal `usize` once trimmed.
    fn content_length(headers: &Vec<(&'a str, &'a str)>) -> (r: Option<usize>)
        ensures
            opt_int(r) == (match content_length_spec(str_pairs_view(headers@)) {
                Some(n) => Some(n as int),
                None => None,
            }),
    {
        let name: [u8; 14] = [99, 111, 110, 116, 101, 110, 116, 45, 108, 101, 110, 103, 116, 104];
        let name_s = name.as_slice();
        assert(name_s@ =~= content_length_name());
        match find_value_ci(headers, name_s) {
            None => None,
            Some(v) => {
                let t = trim_str(v);
                proof {
                    lemma_decode_of_bytes(v);
                }
                match parse_uint_str(t, 10, usize::MAX as u64) {
                    Ok(n) => {
                        proof {
                            crate::text::lemma_scan_uint_bound_parse(t.spec_bytes(), 10, usize::MAX as nat);
                        }
                        Some(n as usize)
                    },
                    Err(_) => None,
                }
            },
        }
    }

    /// Parses an HTTP/1.1 request from a byte buffer.
    ///
    /// Returns `None` while the request is still incomplete (the head has not
    /// ended, or fewer body bytes than `Content-Length` announces have
    /// arrived), and for a head that is not UTF-8, a malformed request line or
    /// a version other than `HTTP/1.1`. Without `Content-Length` the body is
    /// everything after the head; with it, exactly that many bytes.
    #[verifier::rlimit(40)]
    pub fn parse(buf: &'a [u8]) -> (r: Option<Request<'a>>)
        ensures
            match r {
                Some(req) => parse_spec(buf@) == Some(req@),
                None => parse_spec(buf@) is None,
            },
    {
        let header_end = match Self::find_header_end(buf) {
            Some(e) => e,
            None => return None,
        };
        let ghost he = header_end as int;
        let head_bytes = slice_range(buf, 0, header_end);
        let text = match str_from_utf8(head_bytes) {
            Ok(t) => t,
            Err(_) => return None,
        };
        let tb = text.as_bytes();
        let ghost head = buf@.subrange(0, he);
        assert(tb@ == head);
        let crlf_arr: [u8; 2] = [13, 10];
        let crlf_s = crlf_arr.as_slice();
        assert(crlf_s@ =~= crlf());
        proof {
            lemma_find_from(buf@, crlf_crlf(), 0);
            lemma_find_from(head, crlf(), 0);
            assert(buf@.subrange(he - 4, he) == crlf_crlf());
            assert(head.subrange(he - 4, he) =~= buf@.subrange(he - 4, he));
            assert(head.subrange(he - 4, he - 2) =~= crlf());
            assert(crate::text::matches_at(head, he - 4, crlf()));
        }
        let e1 = match find_bytes(tb, crlf_s, 0) {
            Some(k) => k,
            None => return None,
        };
        proof {
            assert(head.subrange(e1 as int, e1 + 2)[0] == head[e1 as int]);
            assert(head.subrange(e1 as int, e1 + 2)[1] == head[e1 + 1]);
            lemma_boundary_near_ascii(head, e1 as int);
        }
        let rl = substr(text, 0, e1);
        let rlb = rl.as_bytes();
        let ghost rls = head.subrange(0, e1 as int);
        assert(rlb@ == rls);
        let s1 = match find_byte(rlb, 32, 0) {
            Some(k) => k,
            None => return None,
        };
        proof {
            lemma_byte_pos_from(rls, 32, 0);
        }
        let s2 = match find_byte(rlb, 32, s1 + 1) {
            Some(k) => k,
            None => return None,
        };
        proof {
            lemma_byte_pos_from(rls, 32, s1 + 1);
            lemma_str_valid(rl);
            lemma_boundary_near_ascii(rls, 0);
            lemma_boundary_near_ascii(rls, s1 as int);
            lemma_boundary_near_ascii(rls, s1 + 1);
            lemma_boundary_near_ascii(rls, s2 as int);
            lemma_boundary_near_ascii(rls, s2 + 1);
            lemma_boundary_near_ascii(rls, rls.len() as int);
        }
        let method = substr(rl, 0, s1);
        let version = substr(rl, s2 + 1, rlb.len());
        let full_path = substr(rl, s1 + 1, s2);
        let http11: [u8; 8] = [72, 84, 84, 80, 47, 49, 46, 49];
        let http11_s = http11.as_slice();
        assert(http11_s@ =~= http_1_1());
        if method.len() == 0 || full_path.len() == 0 || !bytes_equal(version.as_bytes(), http11_s) {
            return None;
        }
        let (path, query_params) = Self::parse_path_and_query(full_path);
        let headers = Self::parse_headers(text, e1 + 2);
        let content_length = Self::content_length(&headers);
        let body_len: usize = match content_length {
            Some(len) => {
                if len > buf.len() - header_end {
                    return None;
                }
                len
            },
            None => buf.len() - header_end,
        };
        let body = bytes_to_vec(slice_range(buf, header_end, header_end + body_len));
        let params: Vec<(String, String)> = Vec::with_capacity(4);
        assert(string_pairs_view(params@) =~= Seq::<BytePair>::empty());
        Some(
            Request {
                method,
                path,
                version,
                headers,
                params,
                query_params,
                body,
            },
        )
    }

    /// Gets a route parameter by name.
    pub fn param(&self, name: &str) -> (r: Option<&str>)
        ensures
            match r {
                Some(v) => lookup_exact(self@.params, name.spec_bytes()) == Some(v.spec_bytes()),
                None => lookup_exact(self@.params, name.spec_bytes()) is None,
            },
    {
        let ghost view = self@.params;
        let mut i: usize = 0;
        assert(view.subrange(0, view.len() as int) =~= view);
        while i < self.params.len()
            invariant
                view == string_pairs_view(self.params@),
                i <= self.params@.len(),
                lookup_exact(view, name.spec_bytes()) == lookup_exact(
                    view.subrange(i as int, view.len() as int),
                    name.spec_bytes(),
                ),
            decreases self.params@.len() - i,
        {
            proof {
                lemma_lookup_step(view, i as int);
            }
            let k = self.params[i].0.as_str();
            if bytes_equal(k.as_bytes(), name.as_bytes()) {
                return Some(self.params[i].1.as_str());
            }
            i = i + 1;
        }
        None
    }

    /// Gets a header by name, ignoring ASCII case.
    pub fn header(&self, name: &str) -> (r: Option<&str>)
        ensures
            match r {
                Some(v) => lookup_ci(self@.headers, name.spec_bytes()) == Some(v.spec_bytes()),
                None => lookup_ci(self@.headers, name.spec_bytes()) is None,
            },
    {
        match find_value_ci(&self.headers, name.as_bytes()) {
            Some(v) => Some(v),
            None => None,
        }
    }

    /// The raw `Content-Type` header value, looked up ignoring ASCII case.
    pub fn content_type(&self) -> (r: Option<&str>)
        ensures
            match r {
                Some(v) => lookup_ci(self@.headers, content_type_name()) == Some(v.spec_bytes()),
                None => lookup_ci(self@.headers, content_type_name()) is None,
            },
    {
        let name: [u8; 12] = [99, 111, 110, 116, 101, 110, 116, 45, 116, 121, 112, 101];
        let name_s = name.as_slice();
        assert(name_s@ =~= content_type_name());
        match find_value_ci(&self.headers, name_s) {
            Some(v) => Some(v),
            None => None,
        }
    }

    /// Gets a query parameter by name.
    pub fn query(&self, name: &str) -> (r: Option<&str>)
        ensures
            match r {
                Some(v) => lookup_exact(self@.query_params, name.spec_bytes()) == Some(v.spec_bytes()),
                None => lookup_exact(self@.query_params, name.spec_bytes()) is None,
            },
    {
        match find_value_exact(&self.query_params, name.as_bytes()) {
            Some(v) => Some(v),
            None => None,
        }
    }

    /// The media type: the `Content-Type` value before any parameters,
    /// trimmed and lowercased; `None` when the header is absent or blank.
    pub fn mime_type(&self) -> (r: Option<String>)
        ensures
            match r {
                Some(m) => mime_spec(self@.headers) == Some(m@),
                None => mime_spec(self@.headers) is None,
            },
    {
        let ct = match self.content_type() {
            Some(v) => v,
            None => return None,
        };
        let cb = ct.as_bytes();
        let ghost cs = ct.spec_bytes();
        proof {
            lemma_str_valid(ct);
            lemma_byte_pos_from(cs, 59, 0);
        }
        let end: usize = match find_byte(cb, 59, 0) {
            Some(k) => k,
            None => cb.len(),
        };
        proof {
            lemma_boundary_near_ascii(cs, 0);
            lemma_boundary_near_ascii(cs, end as int);
        }
        let seg = substr(ct, 0, end);
        proof {
            lemma_decode_of_bytes(seg);
            assert(cs.subrange(0, cs.len() as int) =~= cs);
        }
        let mime = trim_str(seg);
        if mime.is_empty() {
            return None;
        }
        Some(lowercase_string(mime))
    }

    /// The fields of a `multipart/form-data` body.
    pub fn get_multipart_fields(&self) -> (r: Result<Vec<FormField>, String>)
        ensures
            match r {
                Ok(fields) => multipart_fields_spec(self@) == Ok::<Seq<FieldView>, Seq<char>>(
                    fields@.map_values(|f: FormField| f@),
                ),
                Err(m) => multipart_fields_spec(self@) == Err::<Seq<FieldView>, Seq<char>>(m@),
            },
    {
        let content_type = match self.content_type() {
            Some(ct) => ct,
            None => return Err(to_owned_string("content-type not found")),
        };
        let boundary = match extract_boundary_from_content_type(content_type) {
            Some(b) => b,
            None => return Err(to_owned_string("boundary not found")),
        };
        parse_multipart(self.body.as_slice(), boundary.as_str())
    }
}

/// The fields of a request's `multipart/form-data` body: the boundary comes
/// from `Content-Type`, whose absence is an error, as is a content type
/// without a boundary.
pub open spec fn multipart_fields_spec(r: RequestView) -> Result<Seq<FieldView>, Seq<char>> {
    match lookup_ci(r.headers, content_type_name()) {
        None => Err("content-type not found"@),
        Some(ct) => match boundary_spec(ct) {
            None => Err("boundary not found"@),
            Some(b) => multipart_spec(r.body, b),
        },
    }
}

} // verus!
