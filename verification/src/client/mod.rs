//! A small HTTP client: where to connect, what to send, and how to read the
//! reply. The network exchange itself is left to the caller.
use vstd::prelude::*;
use vstd::string::*;
use vstd::utf8::*;

use crate::request::{crlf, crlf_crlf};
use crate::text::{
    lossy_decode, lossy_string, lowercase_string, unicode_lowercase, byte_pos, bytes_match_at, bytes_start_with, bytes_to_vec, decimal, find_byte, find_bytes,
    find_from, has_prefix, last_byte_pos, lemma_boundary_near_ascii, lemma_byte_pos_from,
    lemma_decode_of_bytes, lemma_find_from, lemma_last_byte_pos, lemma_scan_uint_bound_parse,
    lemma_str_valid, matches_at, parse_uint, parse_uint_bytes, push_bytes,
    push_decimal, push_str, rfind_byte, slice_range, str_bytes, str_from_utf8, substr,
    to_owned_string, trim_str, trim_ws, utf8_error_text, IntErrorKind, IntoText,
    all_ascii, lemma_ascii_valid, lemma_ascii_encode, scan_uint, digit_value, lead_ws, trail_ws, is_white_space,
};

verus! {

broadcast use vstd::seq_lib::group_seq_properties;

/// `https://`
pub open spec fn https_prefix() -> Seq<u8> {
    "https://".spec_bytes()
}

/// `http://`
pub open spec fn http_prefix() -> Seq<u8> {
    "http://".spec_bytes()
}

/// A host and port read from an authority (`host`, `host:port`, `[v6]` or
/// `[v6]:port`); a port that is missing or not a `u16` gives `default_port`.
pub open spec fn split_authority_spec(a: Seq<u8>, default_port: u16) -> (Seq<u8>, u16) {
    let bracketed = if a.len() > 0 && a[0] == 91 {
        match byte_pos(a.subrange(1, a.len() as int), 93) {
            Some(close) => {
                let host = a.subrange(0, close + 2);
                let after = a.subrange(close + 2, a.len() as int);
                if after.len() > 0 && after[0] == 58 {
                    match parse_uint(after.subrange(1, after.len() as int), 10, 65535) {
                        Ok(port) => Some((host, port as u16)),
                        Err(_) => Some((host, default_port)),
                    }
                } else {
                    Some((host, default_port))
                }
            },
            None => None,
        }
    } else {
        None
    };
    match bracketed {
        Some(r) => r,
        None => match last_byte_pos(a, 58) {
            Some(colon) => match parse_uint(a.subrange(colon + 1, a.len() as int), 10, 65535) {
                Ok(port) => (a.subrange(0, colon), port as u16),
                Err(_) => (a, default_port),
            },
            None => (a, default_port),
        },
    }
}

/// Where a client built from `input` connects: the scheme decides TLS and
/// the default port, the scheme is dropped, anything from the first `/` on
/// is ignored, and the rest is split into host and port.
pub open spec fn client_spec(input: Seq<u8>) -> (Seq<u8>, bool, u16) {
    let secure = has_prefix(input, https_prefix());
    let default_port: u16 = if secure {
        443
    } else {
        80
    };
    let stripped = if secure {
        input.subrange(8, input.len() as int)
    } else if has_prefix(input, http_prefix()) {
        input.subrange(7, input.len() as int)
    } else {
        input
    };
    let authority = match byte_pos(stripped, 47) {
        Some(i) => stripped.subrange(0, i),
        None => stripped,
    };
    let (host, port) = split_authority_spec(authority, default_port);
    (host, secure, port)
}

/// An HTTP client for one server, over TLS or plain TCP.
pub struct Client {
    /// The host to connect to (a name, an IPv4 address or a bracketed IPv6 address).
    pub host: String,
    /// Whether the connection uses TLS.
    pub is_secure: bool,
    /// The port to connect to.
    pub port: u16,
}

/// Parses a decimal port; `None` unless it is a valid `u16`.
fn parse_port(s: &[u8]) -> (r: Option<u16>)
    ensures
        match r {
            Some(p) => parse_uint(s@, 10, 65535) == Ok::<nat, IntErrorKind>(p as nat),
            None => parse_uint(s@, 10, 65535) is Err,
        },
{
    match parse_uint_bytes(s, 10, 65535) {
        Ok(v) => {
            proof {
                lemma_scan_uint_bound_parse(s@, 10, 65535);
            }
            Some(v as u16)
        },
        Err(_) => None,
    }
}

/// Splits an authority string into a host and port.
///
/// Supports `host`, `host:port`, and IPv6 literals such as `[::1]` or
/// `[::1]:9090`. When no port is present, `default_port` is returned.
fn split_authority(authority: &str, default_port: u16) -> (r: (String, u16))
    ensures
        (str_bytes(r.0@), r.1) == split_authority_spec(authority.spec_bytes(), default_port),
{
    let b = authority.as_bytes();
    let ghost a = b@;
    proof {
        lemma_str_valid(authority);
        assert(a.subrange(0, a.len() as int) =~= a);
    }
    if b.len() > 0 && b[0] == 91 {
        let rest = slice_range(b, 1, b.len());
        proof {
            lemma_byte_pos_from(rest@, 93, 0);
        }
        match find_byte(rest, 93, 0) {
            Some(close) => {
                proof {
                    assert(a[close + 1] == rest@[close as int]);
                    lemma_boundary_near_ascii(a, 0);
                    lemma_boundary_near_ascii(a, close + 2);
                    lemma_boundary_near_ascii(a, a.len() as int);
                }
                let host = to_owned_string(substr(authority, 0, close + 2));
                let after = slice_range(b, close + 2, b.len());
                if after.len() > 0 && after[0] == 58 {
                    match parse_port(slice_range(after, 1, after.len())) {
                        Some(port) => {
                            return (host, port);
                        },
                        None => {},
                    }
                }
                return (host, default_port);
            },
            None => {},
        }
    }
    proof {
        lemma_last_byte_pos(a, 58);
    }
    match rfind_byte(b, 58) {
        Some(colon) => {
            match parse_port(slice_range(b, colon + 1, b.len())) {
                Some(port) => {
                    proof {
                        lemma_boundary_near_ascii(a, 0);
                        lemma_boundary_near_ascii(a, colon as int);
                    }
                    let host = to_owned_string(substr(authority, 0, colon));
                    return (host, port);
                },
                None => {},
            }
        },
        None => {},
    }
    (to_owned_string(authority), default_port)
}

impl Client {
    /// Creates a new `Client`.
    ///
    /// The `host` parameter can include a scheme like `http://` or
    /// `https://`. If a scheme is provided, it is stripped, and the
    /// `is_secure` flag and default port (443 for https, 80 for http) are set
    /// accordingly. A path after the authority is ignored; an explicit port
    /// overrides the default.
    pub fn new<H: IntoText>(host: H) -> (r: Self)
        ensures
            (str_bytes(r.host@), r.is_secure, r.port) == client_spec(str_bytes(host.text_view())),
    {
        let host_str = host.into_text();
        let text = host_str.as_str();
        let b = text.as_bytes();
        let ghost input = b@;
        proof {
            lemma_str_valid(text);
        }
        let https_arr: [u8; 8] = [104, 116, 116, 112, 115, 58, 47, 47];
        let http_arr: [u8; 7] = [104, 116, 116, 112, 58, 47, 47];
        assert(https_arr@ =~= https_prefix()) by {
            reveal_strlit("https://");
            crate::text::lemma_ascii_encode(("https://")@);
        }
        assert(http_arr@ =~= http_prefix()) by {
            reveal_strlit("http://");
            crate::text::lemma_ascii_encode(("http://")@);
        }
        let is_secure = bytes_start_with(b, https_arr.as_slice());
        let default_port: u16 = if is_secure {
            443
        } else {
            80
        };
        let skip: usize = if is_secure {
            8
        } else if bytes_start_with(b, http_arr.as_slice()) {
            7
        } else {
            0
        };
        proof {
            lemma_boundary_near_ascii(input, skip as int);
            lemma_boundary_near_ascii(input, input.len() as int);
            if skip == 0 {
                assert(input.subrange(0, input.len() as int) =~= input);
            }
        }
        let stripped = substr(text, skip, b.len());
        let sb = stripped.as_bytes();
        let ghost sv = sb@;
        proof {
            lemma_str_valid(stripped);
            lemma_byte_pos_from(sv, 47, 0);
        }
        let end: usize = match find_byte(sb, 47, 0) {
            Some(i) => i,
            None => sb.len(),
        };
        proof {
            lemma_boundary_near_ascii(sv, 0);
            lemma_boundary_near_ascii(sv, end as int);
            assert(sv.subrange(0, sv.len() as int) =~= sv);
        }
        let authority = substr(stripped, 0, end);
        let (cleaned_host, port) = split_authority(authority, default_port);
        Self { host: cleaned_host, is_secure, port }
    }
}


// ---------------------------------------------------------------------
// Chunked transfer decoding

/// Why a chunked body could not be decoded.
#[derive(Debug)]
pub enum ChunkedError {
    /// A chunk-size line has no CRLF after it.
    InvalidEncoding,
    /// A chunk announces more bytes than remain.
    IncompleteChunk,
    /// A chunk's data is not followed by CRLF.
    InvalidTerminator,
    /// A chunk size is not a hexadecimal `usize`.
    InvalidSize(IntErrorKind),
    /// A chunk-size line is not UTF-8; the text says where.
    InvalidUtf8(String),
}

/// The ways decoding a chunked body can fail, without their details.
#[derive(Clone, Copy, Debug, PartialEq, Eq, Structural)]
pub enum ChunkedFailure {
    InvalidEncoding,
    IncompleteChunk,
    InvalidTerminator,
    InvalidSize(IntErrorKind),
    InvalidUtf8,
}

pub open spec fn chunked_failure(e: ChunkedError) -> ChunkedFailure {
    match e {
        ChunkedError::InvalidEncoding => ChunkedFailure::InvalidEncoding,
        ChunkedError::IncompleteChunk => ChunkedFailure::IncompleteChunk,
        ChunkedError::InvalidTerminator => ChunkedFailure::InvalidTerminator,
        ChunkedError::InvalidSize(k) => ChunkedFailure::InvalidSize(k),
        ChunkedError::InvalidUtf8(_) => ChunkedFailure::InvalidUtf8,
    }
}

/// The text of an error, as the decoder reports it.
pub open spec fn chunked_error_text(e: ChunkedError) -> Seq<char> {
    match e {
        ChunkedError::InvalidEncoding => "Invalid chunked encoding"@,
        ChunkedError::IncompleteChunk => "Incomplete chunk"@,
        ChunkedError::InvalidTerminator => "Invalid chunk terminator"@,
        ChunkedError::InvalidSize(k) => crate::text::int_error_text(k),
        ChunkedError::InvalidUtf8(m) => m@,
    }
}

impl ChunkedError {
    /// The error message.
    pub fn to_string(&self) -> (r: String)
        ensures
            r@ == chunked_error_text(*self),
    {
        match self {
            ChunkedError::InvalidEncoding => to_owned_string("Invalid chunked encoding"),
            ChunkedError::IncompleteChunk => to_owned_string("Incomplete chunk"),
            ChunkedError::InvalidTerminator => to_owned_string("Invalid chunk terminator"),
            ChunkedError::InvalidSize(k) => to_owned_string(k.message()),
            ChunkedError::InvalidUtf8(m) => m.clone(),
        }
    }
}

/// Decoding the chunks of `body` from `pos` on, after `acc` was decoded:
/// each chunk is a hexadecimal size line (trimmed of Unicode whitespace)
/// ending in CRLF, that many bytes, and CRLF; a zero size ends the body.
pub open spec fn dechunk_from(body: Seq<u8>, pos: int, acc: Seq<u8>) -> Result<Seq<u8>, ChunkedFailure>
    decreases body.len() - pos,
{
    if pos < 0 || pos > body.len() {
        Err(ChunkedFailure::InvalidEncoding)
    } else {
        match find_from(body, crlf(), pos) {
            None => Err(ChunkedFailure::InvalidEncoding),
            Some(e) => {
                let line = body.subrange(pos, e);
                if !valid_utf8(line) {
                    Err(ChunkedFailure::InvalidUtf8)
                } else {
                    match parse_uint(str_bytes(trim_ws(decode_utf8(line))), 16, usize::MAX as nat) {
                        Err(k) => Err(ChunkedFailure::InvalidSize(k)),
                        Ok(size) => {
                            let start = e + 2;
                            if size == 0 {
                                Ok(acc)
                            } else if start + size > body.len() {
                                Err(ChunkedFailure::IncompleteChunk)
                            } else if !matches_at(body, start + size, crlf()) {
                                Err(ChunkedFailure::InvalidTerminator)
                            } else {
                                proof {
                                    lemma_find_from(body, crlf(), pos);
                                }
                                dechunk_from(
                                    body,
                                    start + size + 2,
                                    acc + body.subrange(start, start + size),
                                )
                            }
                        },
                    }
                }
            },
        }
    }
}

/// The chunk-size line at which decoding from `pos` meets bytes that are
/// not UTF-8, if decoding ends there.
pub open spec fn dechunk_bad_line(body: Seq<u8>, pos: int) -> Option<Seq<u8>>
    decreases body.len() - pos,
{
    if pos < 0 || pos > body.len() {
        None
    } else {
        match find_from(body, crlf(), pos) {
            None => None,
            Some(e) => {
                let line = body.subrange(pos, e);
                if !valid_utf8(line) {
                    Some(line)
                } else {
                    match parse_uint(str_bytes(trim_ws(decode_utf8(line))), 16, usize::MAX as nat) {
                        Err(_) => None,
                        Ok(size) => {
                            let start = e + 2;
                            if size == 0 || start + size > body.len() || !matches_at(body, start + size, crlf()) {
                                None
                            } else {
                                proof {
                                    lemma_find_from(body, crlf(), pos);
                                }
                                dechunk_bad_line(body, start + size + 2)
                            }
                        },
                    }
                }
            },
        }
    }
}

/// The text of a decoding failure of `body`, as the decoder reports it.
pub open spec fn dechunk_failure_text(f: ChunkedFailure, body: Seq<u8>) -> Seq<char> {
    match f {
        ChunkedFailure::InvalidEncoding => "Invalid chunked encoding"@,
        ChunkedFailure::IncompleteChunk => "Incomplete chunk"@,
        ChunkedFailure::InvalidTerminator => "Invalid chunk terminator"@,
        ChunkedFailure::InvalidSize(k) => crate::text::int_error_text(k),
        ChunkedFailure::InvalidUtf8 => match dechunk_bad_line(body, 0) {
            Some(line) => utf8_error_text(line),
            None => Seq::empty(),
        },
    }
}

/// A body in chunked transfer encoding, decoded.
pub open spec fn dechunk(body: Seq<u8>) -> Result<Seq<u8>, ChunkedFailure> {
    dechunk_from(body, 0, Seq::empty())
}

/// A hexadecimal digit, in either case.
pub open spec fn is_hex_digit(b: u8) -> bool {
    (48 <= b <= 57) || (97 <= b <= 102) || (65 <= b <= 70)
}

/// The value of the hexadecimal digits `ds` read left to right onto `acc`.
pub open spec fn hex_fold(ds: Seq<u8>, acc: nat) -> nat
    decreases ds.len(),
{
    if ds.len() == 0 {
        acc
    } else {
        let b = ds[0];
        let d: nat = if 48 <= b <= 57 {
            (b - 48) as nat
        } else if 97 <= b <= 102 {
            (b - 87) as nat
        } else {
            (b - 55) as nat
        };
        hex_fold(ds.drop_first(), acc * 16 + d)
    }
}

/// `ds` is a hexadecimal numeral for `n`: one or more hexadecimal digits,
/// leading zeros allowed.
pub open spec fn hex_numeral(ds: Seq<u8>, n: nat) -> bool {
    &&& ds.len() > 0
    &&& forall|i: int| 0 <= i < ds.len() ==> is_hex_digit(#[trigger] ds[i])
    &&& hex_fold(ds, 0) == n
}

/// A body in chunked transfer encoding: for each chunk its size line
/// `sizes[i]`, CRLF, the chunk and CRLF; then the last chunk `0`, CRLF, and
/// the empty trailer's CRLF.
pub open spec fn chunked_body(chunks: Seq<Seq<u8>>, sizes: Seq<Seq<u8>>) -> Seq<u8>
    decreases chunks.len(),
{
    if chunks.len() == 0 || sizes.len() == 0 {
        seq![48u8, 13u8, 10u8, 13u8, 10u8]
    } else {
        sizes[0] + crlf() + chunks[0] + crlf() + chunked_body(chunks.drop_first(), sizes.drop_first())
    }
}

/// The chunks joined in order.
pub open spec fn joined(chunks: Seq<Seq<u8>>) -> Seq<u8>
    decreases chunks.len(),
{
    if chunks.len() == 0 {
        Seq::empty()
    } else {
        chunks[0] + joined(chunks.drop_first())
    }
}

proof fn lemma_hex_fold_grows(ds: Seq<u8>, acc: nat)
    ensures
        hex_fold(ds, acc) >= acc,
    decreases ds.len(),
{
    if ds.len() > 0 {
        let b = ds[0];
        let d: nat = if 48 <= b <= 57 {
            (b - 48) as nat
        } else if 97 <= b <= 102 {
            (b - 87) as nat
        } else {
            (b - 55) as nat
        };
        lemma_hex_fold_grows(ds.drop_first(), acc * 16 + d);
    }
}

/// Hexadecimal digits whose value fits `max` scan to that value.
proof fn lemma_scan_hex(ds: Seq<u8>, max: nat, acc: nat)
    requires
        forall|i: int| 0 <= i < ds.len() ==> is_hex_digit(#[trigger] ds[i]),
        hex_fold(ds, acc) <= max,
    ensures
        scan_uint(ds, 16, max, acc) == Ok::<nat, IntErrorKind>(hex_fold(ds, acc)),
    decreases ds.len(),
{
    if ds.len() > 0 {
        let b = ds[0];
        assert(is_hex_digit(b));
        let d: nat = if 48 <= b <= 57 {
            (b - 48) as nat
        } else if 97 <= b <= 102 {
            (b - 87) as nat
        } else {
            (b - 55) as nat
        };
        assert(digit_value(b, 16) == Some(d));
        lemma_hex_fold_grows(ds.drop_first(), acc * 16 + d);
        assert forall|i: int| 0 <= i < ds.drop_first().len() implies is_hex_digit(#[trigger] ds.drop_first()[i]) by {
            assert(ds.drop_first()[i] == ds[i + 1]);
        }
        lemma_scan_hex(ds.drop_first(), max, acc * 16 + d);
    }
}

/// ASCII bytes decode to the characters with the same code points.
proof fn lemma_ascii_decode(bs: Seq<u8>)
    requires
        all_ascii(bs),
    ensures
        valid_utf8(bs),
        decode_utf8(bs) == bs.map_values(|b: u8| b as char),
{
    lemma_ascii_valid(bs);
    let chars = bs.map_values(|b: u8| b as char);
    assert(is_ascii_chars(chars));
    lemma_ascii_encode(chars);
    assert(chars.map_values(|c: char| c as u8) =~= bs);
    encode_utf8_decode_utf8(chars);
}

/// A size line of hexadecimal digits reads back, through UTF-8 decoding and
/// whitespace trimming, as the same bytes.
proof fn lemma_hex_line(h: Seq<u8>)
    requires
        h.len() > 0,
        forall|i: int| 0 <= i < h.len() ==> is_hex_digit(#[trigger] h[i]),
    ensures
        valid_utf8(h),
        str_bytes(trim_ws(decode_utf8(h))) == h,
{
    assert(all_ascii(h)) by {
        assert forall|i: int| 0 <= i < h.len() implies #[trigger] h[i] < 0x80 by {
            assert(is_hex_digit(h[i]));
        }
    }
    lemma_ascii_decode(h);
    let chars = decode_utf8(h);
    assert(is_hex_digit(h[0]));
    assert(is_hex_digit(h[h.len() - 1]));
    assert(chars[0] == h[0] as char);
    assert(chars.last() == h[h.len() - 1] as char);
    assert(!is_white_space(chars[0]));
    assert(!is_white_space(chars.last()));
    assert(lead_ws(chars) == 0);
    assert(trail_ws(chars) == 0);
    assert(trim_ws(chars) =~= chars);
    decode_utf8_encode_utf8(h);
}

/// In `body`, the first CRLF at or after `pos` is the one at `pos + k` when
/// no carriage return comes before it.
proof fn lemma_first_crlf(body: Seq<u8>, pos: int, k: int)
    requires
        0 <= pos,
        0 <= k,
        matches_at(body, pos + k, crlf()),
        forall|j: int| pos <= j < pos + k ==> body[j] != 13,
    ensures
        find_from(body, crlf(), pos) == Some(pos + k),
    decreases k,
{
    if k > 0 {
        assert(body.subrange(pos, pos + 2)[0] == body[pos]);
        assert(!matches_at(body, pos, crlf()));
        lemma_first_crlf(body, pos + 1, k - 1);
    }
}

/// Decoding chunks written after any prefix `p` adds their joined bytes to
/// what was decoded before.
proof fn lemma_dechunk_after(p: Seq<u8>, chunks: Seq<Seq<u8>>, sizes: Seq<Seq<u8>>, acc: Seq<u8>)
    requires
        chunks.len() == sizes.len(),
        forall|i: int|
            0 <= i < chunks.len() ==> (#[trigger] chunks[i]).len() > 0 && chunks[i].len() <= usize::MAX && hex_numeral(
                sizes[i],
                chunks[i].len(),
            ),
    ensures
        dechunk_from(p + chunked_body(chunks, sizes), p.len() as int, acc) == Ok::<Seq<u8>, ChunkedFailure>(
            acc + joined(chunks),
        ),
    decreases chunks.len(),
{
    let body = p + chunked_body(chunks, sizes);
    let pos = p.len() as int;
    let max = usize::MAX as nat;
    if chunks.len() == 0 {
        let tail: Seq<u8> = seq![48u8, 13u8, 10u8, 13u8, 10u8];
        assert(body =~= p + tail);
        assert(body[pos] == 48);
        assert(body.subrange(pos + 1, pos + 3) =~= crlf());
        lemma_first_crlf(body, pos, 1);
        let line = body.subrange(pos, pos + 1);
        assert(line =~= seq![48u8]);
        lemma_hex_line(line);
        assert(digit_value(48u8, 16) == Some(0nat));
        assert(scan_uint(line.drop_first(), 16, max, 0) == Ok::<nat, IntErrorKind>(0));
        assert(acc + joined(chunks) =~= acc);
    } else {
        let h = sizes[0];
        let c = chunks[0];
        let rest = chunked_body(chunks.drop_first(), sizes.drop_first());
        assert(chunked_body(chunks, sizes) == h + crlf() + c + crlf() + rest);
        let n = c.len() as int;
        assert(hex_numeral(h, c.len()));
        let hl = h.len() as int;
        assert(body =~= p + h + crlf() + c + crlf() + rest);
        assert forall|j: int| pos <= j < pos + hl implies body[j] != 13 by {
            assert(body[j] == h[j - pos]);
            assert(is_hex_digit(h[j - pos]));
        }
        assert(body.subrange(pos + hl, pos + hl + 2) =~= crlf());
        lemma_first_crlf(body, pos, hl);
        let line = body.subrange(pos, pos + hl);
        assert(line =~= h);
        lemma_hex_line(h);
        lemma_scan_hex(h, max, 0);
        assert(is_hex_digit(h[0]));
        assert(parse_uint(str_bytes(trim_ws(decode_utf8(line))), 16, max) == Ok::<nat, IntErrorKind>(c.len()));
        let start = pos + hl + 2;
        assert(body.subrange(start, start + n) =~= c);
        assert(body.subrange(start + n, start + n + 2) =~= crlf());
        let p2 = p + h + crlf() + c + crlf();
        assert(body =~= p2 + rest);
        assert(p2.len() == start + n + 2);
        assert forall|i: int| 0 <= i < chunks.drop_first().len() implies (#[trigger] chunks.drop_first()[i]).len() > 0
            && chunks.drop_first()[i].len() <= usize::MAX && hex_numeral(sizes.drop_first()[i], chunks.drop_first()[i].len()) by {
            assert(chunks.drop_first()[i] == chunks[i + 1]);
            assert(sizes.drop_first()[i] == sizes[i + 1]);
        }
        lemma_dechunk_after(p2, chunks.drop_first(), sizes.drop_first(), acc + c);
        assert(acc + c + joined(chunks.drop_first()) =~= acc + joined(chunks));
    }
}

/// Decoding a body written in chunked transfer encoding gives back its
/// chunks joined in order, whatever case and leading zeros its hexadecimal
/// sizes are written with (each size fitting a `usize`).
pub proof fn law_dechunk_encoded(chunks: Seq<Seq<u8>>, sizes: Seq<Seq<u8>>)
    requires
        chunks.len() == sizes.len(),
        forall|i: int|
            0 <= i < chunks.len() ==> (#[trigger] chunks[i]).len() > 0 && chunks[i].len() <= usize::MAX && hex_numeral(
                sizes[i],
                chunks[i].len(),
            ),
    ensures
        dechunk(chunked_body(chunks, sizes)) == Ok::<Seq<u8>, ChunkedFailure>(joined(chunks)),
{
    lemma_dechunk_after(Seq::empty(), chunks, sizes, Seq::empty());
    assert(Seq::<u8>::empty() + chunked_body(chunks, sizes) =~= chunked_body(chunks, sizes));
    assert(Seq::<u8>::empty() + joined(chunks) =~= joined(chunks));
}

/// Decodes a body that has been encoded using chunked transfer encoding.
///
/// Chunk extensions (`;name=value` after the size) are not supported and
/// make the size invalid.
pub fn decode_chunked(body: &[u8]) -> (r: Result<Vec<u8>, ChunkedError>)
    ensures
        match r {
            Ok(v) => dechunk(body@) == Ok::<Seq<u8>, ChunkedFailure>(v@),
            Err(e) => {
                &&& dechunk(body@) == Err::<Seq<u8>, ChunkedFailure>(chunked_failure(e))
                &&& chunked_error_text(e) == dechunk_failure_text(chunked_failure(e), body@)
            },
        },
{
    let mut result: Vec<u8> = Vec::new();
    let mut pos: usize = 0;
    let crlf_arr: [u8; 2] = [13, 10];
    let crlf_s = crlf_arr.as_slice();
    assert(crlf_s@ =~= crlf());
    let n = body.len();
    loop
        invariant
            crlf_s@ == crlf(),
            n == body@.len(),
            pos <= body@.len(),
            dechunk(body@) == dechunk_from(body@, pos as int, result@),
            dechunk_bad_line(body@, 0) == dechunk_bad_line(body@, pos as int),
        decreases body@.len() - pos,
    {
        proof {
            lemma_find_from(body@, crlf(), pos as int);
        }
        let end = match find_bytes(body, crlf_s, pos) {
            Some(e) => e,
            None => return Err(ChunkedError::InvalidEncoding),
        };
        let size_str = match str_from_utf8(slice_range(body, pos, end)) {
            Ok(s) => s,
            Err(m) => return Err(ChunkedError::InvalidUtf8(m)),
        };
        proof {
            lemma_decode_of_bytes(size_str);
        }
        let size_bytes = trim_str(size_str);
        let size: usize = match crate::text::parse_uint_str(size_bytes, 16, usize::MAX as u64) {
            Ok(v) => {
                proof {
                    lemma_scan_uint_bound_parse(size_bytes.spec_bytes(), 16, usize::MAX as nat);
                }
                v as usize
            },
            Err(k) => return Err(ChunkedError::InvalidSize(k)),
        };
        let start = end + 2;
        if size == 0 {
            return Ok(result);
        }
        if size > body.len() - start {
            return Err(ChunkedError::IncompleteChunk);
        }
        if !bytes_match_at(body, start + size, crlf_s) {
            return Err(ChunkedError::InvalidTerminator);
        }
        let ghost before = result@;
        push_bytes(&mut result, slice_range(body, start, start + size));
        pos = start + size + 2;
    }
}

// ---------------------------------------------------------------------
// Framing a request and reading the reply

/// What follows the headers of a request: `Content-Length` when there is a
/// body, a blank line, and the body.
pub open spec fn body_tail(body: Option<Seq<u8>>) -> Seq<u8> {
    match body {
        Some(b) => "Content-Length: ".spec_bytes() + decimal(b.len()) + "\r\n".spec_bytes() + "\r\n".spec_bytes() + b,
        None => "\r\n".spec_bytes(),
    }
}

/// Appends `Content-Length` (with a body), a blank line and the body.
fn push_body_tail(out: &mut Vec<u8>, body: Option<&str>)
    ensures
        final(out)@ == old(out)@ + body_tail(
            match body {
                Some(b) => Some(b.spec_bytes()),
                None => None,
            },
        ),
{
    let ghost start = out@;
    match body {
        Some(b) => {
            push_str(out, "Content-Length: ");
            let len = b.as_bytes().len();
            assert(len == b.spec_bytes().len());
            assert(len as u64 as nat == len as nat);
            push_decimal(out, len as u64);
            push_str(out, "\r\n");
            push_str(out, "\r\n");
            push_str(out, b);
            assert(out@ =~= start + body_tail(Some(b.spec_bytes())));
        },
        None => {
            push_str(out, "\r\n");
        },
    }
}

/// Appends `key: value` CRLF for each pair.
fn push_header_lines(out: &mut Vec<u8>, headers: &[(&str, &str)])
    ensures
        final(out)@ == old(out)@ + crate::response::header_bytes_lines(
            headers@.map_values(|h: (&str, &str)| (h.0.spec_bytes(), h.1.spec_bytes())),
        ),
{
    let ghost hv = headers@.map_values(|h: (&str, &str)| (h.0.spec_bytes(), h.1.spec_bytes()));
    let ghost head = out@;
    let mut i: usize = 0;
    assert(head + crate::response::header_bytes_lines(hv.subrange(0, 0)) =~= head);
    while i < headers.len()
        invariant
            hv == headers@.map_values(|h: (&str, &str)| (h.0.spec_bytes(), h.1.spec_bytes())),
            i <= headers@.len(),
            out@ == head + crate::response::header_bytes_lines(hv.subrange(0, i as int)),
        decreases headers@.len() - i,
    {
        let (k, v) = headers[i];
        push_str(out, k);
        push_str(out, ": ");
        push_str(out, v);
        push_str(out, "\r\n");
        proof {
            let t = hv.subrange(0, i + 1);
            assert(t.drop_last() =~= hv.subrange(0, i as int));
            assert(t.last() == hv[i as int]);
        }
        i = i + 1;
    }
    assert(hv.subrange(0, headers@.len() as int) =~= hv);
}

/// `transfer-encoding: chunked`
pub open spec fn chunked_marker() -> Seq<u8> {
    "transfer-encoding: chunked".spec_bytes()
}

/// The reply body a client hands back: the bytes after the head, decoded
/// when the head (read leniently as UTF-8 and lowercased) mentions chunked
/// transfer encoding, and read as UTF-8.
pub open spec fn reply_body_spec(raw: Seq<u8>) -> Option<Result<Seq<u8>, ChunkedFailure>> {
    match find_from(raw, crlf_crlf(), 0) {
        None => None,
        Some(h) => {
            let head_text = unicode_lowercase(lossy_decode(raw.subrange(0, h)));
            let rest = raw.subrange(h + 4, raw.len() as int);
            if find_from(str_bytes(head_text), chunked_marker(), 0) is Some {
                Some(dechunk(rest))
            } else {
                Some(Ok(rest))
            }
        },
    }
}

/// What follows the head of a reply.
pub open spec fn reply_rest(raw: Seq<u8>) -> Seq<u8> {
    match find_from(raw, crlf_crlf(), 0) {
        Some(h) => raw.subrange(h + 4, raw.len() as int),
        None => raw,
    }
}

/// Why reading a reply failed: the text the client reports.
pub open spec fn reply_error_is(raw: Seq<u8>, message: Seq<char>) -> bool {
    match reply_body_spec(raw) {
        None => message == "Invalid HTTP response: headers not found"@,
        Some(Err(f)) => message == dechunk_failure_text(f, reply_rest(raw)),
        Some(Ok(bytes)) => !valid_utf8(bytes) && message == utf8_error_text(bytes),
    }
}

impl Client {
    /// The `Host` header value: the host, with the port unless it is the
    /// scheme's default.
    pub open spec fn host_header_spec(&self) -> Seq<u8> {
        if (self.is_secure && self.port == 443) || (!self.is_secure && self.port == 80) {
            str_bytes(self.host@)
        } else {
            str_bytes(self.host@) + ":".spec_bytes() + decimal(self.port as nat)
        }
    }

    /// The request line and the fixed headers of a request.
    pub open spec fn request_head_spec(&self, method: Seq<u8>, path: Seq<u8>) -> Seq<u8> {
        method + " ".spec_bytes() + path + " HTTP/1.1\r\n".spec_bytes() + "Host: ".spec_bytes()
            + self.host_header_spec() + "\r\n".spec_bytes() + "User-Agent: r-server\r\n".spec_bytes()
            + "Accept: application/json\r\n".spec_bytes() + "Connection: close\r\n".spec_bytes()
    }

    /// The request the client sends: request line, `Host`, `User-Agent`,
    /// `Accept`, `Connection: close`, the extra headers, `Content-Length`
    /// when there is a body, a blank line and the body.
    pub open spec fn request_spec(
        &self,
        method: Seq<u8>,
        path: Seq<u8>,
        body: Option<Seq<u8>>,
        headers: Seq<(Seq<u8>, Seq<u8>)>,
    ) -> Seq<u8> {
        self.request_head_spec(method, path) + crate::response::header_bytes_lines(headers) + body_tail(body)
    }

    /// Appends the request line and the fixed headers.
    #[verifier::rlimit(40)]
    fn push_request_head(&self, out: &mut Vec<u8>, method: &str, path: &str)
        ensures
            final(out)@ == old(out)@ + self.request_head_spec(method.spec_bytes(), path.spec_bytes()),
    {
        let ghost start = out@;
        push_str(out, method);
        push_str(out, " ");
        push_str(out, path);
        push_str(out, " HTTP/1.1\r\n");
        push_str(out, "Host: ");
        self.push_host(out);
        push_str(out, "\r\n");
        push_str(out, "User-Agent: r-server\r\n");
        push_str(out, "Accept: application/json\r\n");
        push_str(out, "Connection: close\r\n");
        assert(out@ =~= start + self.request_head_spec(method.spec_bytes(), path.spec_bytes()));
    }

    /// Appends the `Host` header value.
    fn push_host(&self, out: &mut Vec<u8>)
        ensures
            final(out)@ == old(out)@ + self.host_header_spec(),
    {
        let ghost before_host = out@;
        push_str(out, self.host.as_str());
        if !((self.is_secure && self.port == 443) || (!self.is_secure && self.port == 80)) {
            push_str(out, ":");
            push_decimal(out, self.port as u64);
        }
        assert(out@ =~= before_host + self.host_header_spec());
    }

    /// The bytes of a request to send to the server.
    pub fn build_request(&self, method: &str, path: &str, body: Option<&str>, headers: &[(&str, &str)]) -> (r: Vec<u8>)
        ensures
            r@ == self.request_spec(
                method.spec_bytes(),
                path.spec_bytes(),
                match body {
                    Some(b) => Some(b.spec_bytes()),
                    None => None,
                },
                headers@.map_values(|h: (&str, &str)| (h.0.spec_bytes(), h.1.spec_bytes())),
            ),
    {
        let mut out: Vec<u8> = Vec::new();
        self.push_request_head(&mut out, method, path);
        push_header_lines(&mut out, headers);
        push_body_tail(&mut out, body);
        out
    }

    /// Reads the body out of a raw reply: the bytes after the head, decoded
    /// when the reply is chunked, as UTF-8 text. Fails when the head never
    /// ends, the chunks are malformed, or the body is not UTF-8.
    pub fn read_response(raw: &[u8]) -> (r: Result<String, String>)
        ensures
            match r {
                Ok(text) => reply_body_spec(raw@) matches Some(Ok(bytes)) && str_bytes(text@) == bytes,
                Err(message) => reply_error_is(raw@, message@),
            },
    {
        let pat: [u8; 4] = [13, 10, 13, 10];
        assert(pat@ =~= crlf_crlf());
        let n = raw.len();
        proof {
            lemma_find_from(raw@, crlf_crlf(), 0);
        }
        let header_end = match find_bytes(raw, pat.as_slice(), 0) {
            Some(h) => h,
            None => return Err(to_owned_string("Invalid HTTP response: headers not found")),
        };
        let head_text = lossy_string(slice_range(raw, 0, header_end));
        let lower = lowercase_string(head_text.as_str());
        let marker = "transfer-encoding: chunked";
        let is_chunked = match find_bytes(lower.as_str().as_bytes(), marker.as_bytes(), 0) {
            Some(_) => true,
            None => false,
        };
        let rest = slice_range(raw, header_end + 4, raw.len());
        let final_body: Vec<u8> = if is_chunked {
            match decode_chunked(rest) {
                Ok(v) => v,
                Err(e) => {
                    let m = e.to_string();
                    return Err(m);
                },
            }
        } else {
            bytes_to_vec(rest)
        };
        match str_from_utf8(final_body.as_slice()) {
            Ok(s) => Ok(to_owned_string(s)),
            Err(m) => Err(m),
        }
    }
}

} // verus!
