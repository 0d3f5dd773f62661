//! `multipart/form-data` bodies: the boundary of a content type, and the
//! fields of a body.
use vstd::prelude::*;
use vstd::string::*;
use vstd::utf8::*;

use crate::text::{
    bytes_equal, bytes_start_with, bytes_end_with, bytes_to_vec, find_from,
    has_prefix, has_suffix, lossy_decode, lossy_string, lowercase_string,
    matches_at, slice_range, str_same, unicode_lowercase, push_bytes, memchr_in, byte_pos, byte_pos_from, bytes_eq_ignore_case, eq_ignore_case, find_byte, lemma_boundary_near_ascii,
    lemma_byte_pos_from, lemma_decode_of_bytes, lemma_str_valid, opt_int, str_bytes, strip_ascii,
    strip_byte, substr, to_owned_string, trim_str, trim_ws,
};

verus! {

broadcast use vstd::seq_lib::group_seq_properties;

// ---------------------------------------------------------------------
// `;`-separated parameters

/// End of the `;`-separated segment of `s` that starts at `pos`.
pub open spec fn seg_end(s: Seq<u8>, pos: int) -> int {
    match byte_pos_from(s, 59, pos) {
        Some(k) => k,
        None => s.len() as int,
    }
}

/// The text of `bytes` (UTF-8) trimmed of Unicode whitespace, as bytes.
pub open spec fn trimmed(bytes: Seq<u8>) -> Seq<u8> {
    str_bytes(trim_ws(decode_utf8(bytes)))
}

/// A parameter segment read as `key=value`: the segment trimmed, split at
/// its first `=`, the key trimmed, the value trimmed and stripped of `"`.
pub open spec fn kv_of(seg: Seq<u8>) -> Option<(Seq<u8>, Seq<u8>)> {
    let t = trimmed(seg);
    match byte_pos(t, 61) {
        Some(e) => Some(
            (trimmed(t.subrange(0, e)), strip_byte(trimmed(t.subrange(e + 1, t.len() as int)), 34)),
        ),
        None => None,
    }
}

/// The value of the first parameter, in the segments from `pos` on, whose
/// key equals `key` up to ASCII case (and, when `nonempty`, whose value is
/// not empty).
pub open spec fn find_param_from(s: Seq<u8>, pos: int, key: Seq<u8>, nonempty: bool) -> Option<Seq<u8>>
    decreases s.len() - pos,
{
    if pos < 0 || pos > s.len() {
        None
    } else {
        let end = seg_end(s, pos);
        proof {
            lemma_byte_pos_from(s, 59, pos);
        }
        let here = match kv_of(s.subrange(pos, end)) {
            Some(kv) => if eq_ignore_case(kv.0, key) && (!nonempty || kv.1.len() > 0) {
                Some(kv.1)
            } else {
                None
            },
            None => None,
        };
        if here is Some {
            here
        } else if end < s.len() {
            find_param_from(s, end + 1, key, nonempty)
        } else {
            None
        }
    }
}

/// The boundary a `Content-Type` value declares: the type before the first
/// `;` must be `multipart/form-data` (ASCII case ignored), and the first
/// `boundary` parameter with a non-empty value gives it.
pub open spec fn boundary_spec(ct: Seq<u8>) -> Option<Seq<u8>> {
    let e0 = seg_end(ct, 0);
    if !eq_ignore_case(trimmed(ct.subrange(0, e0)), "multipart/form-data".spec_bytes()) {
        None
    } else if e0 < ct.len() {
        find_param_from(ct, e0 + 1, "boundary".spec_bytes(), true)
    } else {
        None
    }
}

/// Splits a parameter segment into its trimmed key and its trimmed,
/// unquoted value.
fn split_param<'a>(seg: &'a str) -> (r: Option<(&'a str, &'a str)>)
    ensures
        match r {
            Some(kv) => kv_of(seg.spec_bytes()) == Some((kv.0.spec_bytes(), kv.1.spec_bytes())),
            None => kv_of(seg.spec_bytes()) is None,
        },
{
    proof {
        lemma_decode_of_bytes(seg);
    }
    let t = trim_str(seg);
    let tb = t.as_bytes();
    let n = tb.len();
    let ghost tv = tb@;
    proof {
        lemma_str_valid(t);
        lemma_byte_pos_from(tv, 61, 0);
    }
    match find_byte(tb, 61, 0) {
        None => None,
        Some(e) => {
            proof {
                lemma_boundary_near_ascii(tv, 0);
                lemma_boundary_near_ascii(tv, e as int);
                lemma_boundary_near_ascii(tv, e + 1);
                lemma_boundary_near_ascii(tv, tv.len() as int);
            }
            let ks = substr(t, 0, e);
            let vs = substr(t, e + 1, tb.len());
            proof {
                lemma_decode_of_bytes(ks);
                lemma_decode_of_bytes(vs);
            }
            let k = trim_str(ks);
            let v = strip_ascii(trim_str(vs), 34);
            Some((k, v))
        },
    }
}

/// Searches the `;`-separated parameters of `s` from byte `pos` on.
fn find_param<'a>(s: &'a str, pos: usize, key: &[u8], nonempty: bool) -> (r: Option<&'a str>)
    requires
        pos <= s.spec_bytes().len(),
        pos == 0 || s.spec_bytes()[pos - 1] == 59,
    ensures
        match r {
            Some(v) => find_param_from(s.spec_bytes(), pos as int, key@, nonempty) == Some(v.spec_bytes()),
            None => find_param_from(s.spec_bytes(), pos as int, key@, nonempty) is None,
        },
{
    let b = s.as_bytes();
    let ghost sv = b@;
    proof {
        lemma_str_valid(s);
    }
    let mut p: usize = pos;
    loop
        invariant
            b@ == sv,
            sv == s.spec_bytes(),
            valid_utf8(sv),
            p <= sv.len(),
            p == 0 || sv[p - 1] == 59,
            find_param_from(sv, pos as int, key@, nonempty) == find_param_from(sv, p as int, key@, nonempty),
        decreases sv.len() - p,
    {
        proof {
            lemma_byte_pos_from(sv, 59, p as int);
        }
        let end: usize = match find_byte(b, 59, p) {
            Some(k) => k,
            None => b.len(),
        };
        proof {
            lemma_boundary_near_ascii(sv, p as int);
            lemma_boundary_near_ascii(sv, end as int);
        }
        let seg = substr(s, p, end);
        let ghost here: Option<Seq<u8>> = match kv_of(sv.subrange(p as int, end as int)) {
            Some(kv) => if eq_ignore_case(kv.0, key@) && (!nonempty || kv.1.len() > 0) {
                Some(kv.1)
            } else {
                None
            },
            None => None,
        };
        assert(seg_end(sv, p as int) == end);
        match split_param(seg) {
            Some((k, v)) => {
                let vl = v.as_bytes().len();
                if bytes_eq_ignore_case(k.as_bytes(), key) && (!nonempty || vl > 0) {
                    assert(here == Some(v.spec_bytes()));
                    return Some(v);
                }
                assert(here is None);
            },
            None => {
                assert(here is None);
            },
        }
        if end == b.len() {
            assert(find_param_from(sv, p as int, key@, nonempty) is None);
            return None;
        }
        assert(find_param_from(sv, p as int, key@, nonempty) == find_param_from(sv, end + 1, key@, nonempty));
        p = end + 1;
    }
}

/// Extracts the boundary parameter from a raw `Content-Type` value: `None`
/// unless the type is `multipart/form-data` and a non-empty `boundary`
/// parameter is present.
pub fn extract_boundary_from_content_type(content_type: &str) -> (r: Option<String>)
    ensures
        match r {
            Some(b) => boundary_spec(content_type.spec_bytes()) == Some(str_bytes(b@)),
            None => boundary_spec(content_type.spec_bytes()) is None,
        },
{
    let b = content_type.as_bytes();
    let ghost cv = b@;
    proof {
        lemma_str_valid(content_type);
        lemma_byte_pos_from(cv, 59, 0);
    }
    let e0: usize = match find_byte(b, 59, 0) {
        Some(k) => k,
        None => b.len(),
    };
    proof {
        lemma_boundary_near_ascii(cv, 0);
        lemma_boundary_near_ascii(cv, e0 as int);
    }
    let first_seg = substr(content_type, 0, e0);
    proof {
        lemma_decode_of_bytes(first_seg);
    }
    let first = trim_str(first_seg);
    if !bytes_eq_ignore_case(first.as_bytes(), "multipart/form-data".as_bytes()) {
        return None;
    }
    if e0 == b.len() {
        return None;
    }
    match find_param(content_type, e0 + 1, "boundary".as_bytes(), true) {
        Some(v) => Some(to_owned_string(v)),
        None => None,
    }
}

/// The value of parameter `key` (ASCII case ignored) in a header value such
/// as `form-data; name="a"`, trimmed and unquoted.
fn parse_param(header: &str, key: &str) -> (r: Option<String>)
    ensures
        match r {
            Some(v) => find_param_from(header.spec_bytes(), 0, key.spec_bytes(), false) == Some(str_bytes(v@)),
            None => find_param_from(header.spec_bytes(), 0, key.spec_bytes(), false) is None,
        },
{
    match find_param(header, 0, key.as_bytes(), false) {
        Some(v) => Some(to_owned_string(v)),
        None => None,
    }
}


// ---------------------------------------------------------------------
// The fields of a body

/// A field of a multipart form.
#[derive(Debug, PartialEq, Eq)]
pub struct FormField {
    pub name: String,
    pub filename: Option<String>,
    pub content_type: Option<String>,
    pub data: Vec<u8>,
}

/// A field as byte strings.
pub struct FieldView {
    pub name: Seq<u8>,
    pub filename: Option<Seq<u8>>,
    pub content_type: Option<Seq<u8>>,
    pub data: Seq<u8>,
}

pub open spec fn opt_text_bytes(o: Option<String>) -> Option<Seq<u8>> {
    match o {
        Some(s) => Some(str_bytes(s@)),
        None => None,
    }
}

impl View for FormField {
    type V = FieldView;

    open spec fn view(&self) -> FieldView {
        FieldView {
            name: str_bytes(self.name@),
            filename: opt_text_bytes(self.filename),
            content_type: opt_text_bytes(self.content_type),
            data: self.data@,
        }
    }
}

impl FormField {
    /// The field's payload as text, invalid UTF-8 replaced by U+FFFD.
    pub fn text(&self) -> (r: String)
        ensures
            r@ == lossy_decode(self.data@),
            valid_utf8(self.data@) ==> str_bytes(r@) == self.data@,
    {
        let r = lossy_string(self.data.as_slice());
        proof {
            if valid_utf8(self.data@) {
                decode_utf8_encode_utf8(self.data@);
            }
        }
        r
    }
}

/// Just after the line that starts at `pos`: past its `\n`, or the end.
pub open spec fn next_line(b: Seq<u8>, pos: int) -> int {
    match byte_pos_from(b, 10, pos) {
        Some(k) => k + 1,
        None => b.len() as int,
    }
}

/// A line without its `\n` and then without a `\r` before it.
pub open spec fn trim_newline(s: Seq<u8>) -> Seq<u8> {
    let s1 = if s.len() > 0 && s.last() == 10 {
        s.drop_last()
    } else {
        s
    };
    if s1.len() > 0 && s1.last() == 13 {
        s1.drop_last()
    } else {
        s1
    }
}

/// The line starting at `pos`, without its line ending.
pub open spec fn line_text(b: Seq<u8>, pos: int) -> Seq<u8> {
    trim_newline(b.subrange(pos, next_line(b, pos)))
}

pub proof fn lemma_next_line(b: Seq<u8>, pos: int)
    requires
        0 <= pos < b.len(),
    ensures
        pos < next_line(b, pos) <= b.len(),
{
    lemma_byte_pos_from(b, 10, pos);
}

/// Skipping what precedes the first boundary line: `Ok((true, _))` when it
/// is the closing boundary (an empty form), `Ok((false, p))` when it opens a
/// part that starts at `p`.
pub open spec fn preamble_from(b: Seq<u8>, bd: Seq<u8>, pos: int) -> Result<(bool, int), Seq<char>>
    decreases b.len() - pos,
{
    if pos < 0 || pos >= b.len() {
        Err("Unexpected EOF searching for initial boundary"@)
    } else {
        let t = line_text(b, pos);
        let next = next_line(b, pos);
        proof {
            lemma_next_line(b, pos);
        }
        if t.len() == 0 {
            preamble_from(b, bd, next)
        } else if t == bd {
            Ok((false, next))
        } else if has_prefix(t, bd) && has_suffix(t, "--".spec_bytes()) {
            Ok((true, next))
        } else {
            preamble_from(b, bd, next)
        }
    }
}

/// The header a part's header line holds: the line read leniently as UTF-8,
/// split at its first `:`, the name trimmed and lowercased, the value
/// trimmed.
pub open spec fn header_of_line(t: Seq<u8>) -> Option<(Seq<char>, Seq<char>)> {
    let hb = str_bytes(lossy_decode(t));
    match byte_pos(hb, 58) {
        Some(c) => Some(
            (
                unicode_lowercase(trim_ws(decode_utf8(hb.subrange(0, c)))),
                trim_ws(decode_utf8(hb.subrange(c + 1, hb.len() as int))),
            ),
        ),
        None => None,
    }
}

/// Index of the entry with key `k`.
pub open spec fn key_index(m: Seq<(Seq<char>, Seq<char>)>, k: Seq<char>) -> Option<int>
    decreases m.len(),
{
    if m.len() == 0 {
        None
    } else if m.last().0 == k {
        Some(m.len() - 1)
    } else {
        key_index(m.drop_last(), k)
    }
}

/// `m` with `k` set to `v`: replaced in place when present, else appended.
pub open spec fn map_set(m: Seq<(Seq<char>, Seq<char>)>, k: Seq<char>, v: Seq<char>) -> Seq<(Seq<char>, Seq<char>)> {
    match key_index(m, k) {
        Some(i) => m.update(i, (k, v)),
        None => m.push((k, v)),
    }
}

/// The headers of a part, read line by line from `pos` up to an empty
/// line, and where the body starts.
pub open spec fn part_headers_from(b: Seq<u8>, pos: int, acc: Seq<(Seq<char>, Seq<char>)>) -> Result<
    (Seq<(Seq<char>, Seq<char>)>, int),
    Seq<char>,
>
    decreases b.len() - pos,
{
    if pos < 0 || pos >= b.len() {
        Err("Unexpected EOF reading part headers"@)
    } else {
        let t = line_text(b, pos);
        let next = next_line(b, pos);
        proof {
            lemma_next_line(b, pos);
        }
        if t.len() == 0 {
            Ok((acc, next))
        } else {
            let acc2 = match header_of_line(t) {
                Some(kv) => map_set(acc, kv.0, kv.1),
                None => acc,
            };
            part_headers_from(b, next, acc2)
        }
    }
}

/// The value of the first header whose name equals `name` up to ASCII case.
pub open spec fn lookup_ci_chars(m: Seq<(Seq<char>, Seq<char>)>, name: Seq<u8>) -> Option<Seq<char>>
    decreases m.len(),
{
    if m.len() == 0 {
        None
    } else if eq_ignore_case(str_bytes(m[0].0), name) {
        Some(m[0].1)
    } else {
        lookup_ci_chars(m.drop_first(), name)
    }
}

/// `\r\n` and the boundary line: what ends a part's body.
pub open spec fn delimiter(bd: Seq<u8>) -> Seq<u8> {
    seq![13u8, 10u8] + bd
}

/// At `pos` a boundary line follows at once (an empty body without the
/// usual CRLF): the boundary, then the end, `-`, `\r` or `\n`.
pub open spec fn bare_boundary(b: Seq<u8>, bd: Seq<u8>, pos: int) -> bool {
    let avail = b.subrange(pos, b.len() as int);
    has_prefix(avail, bd) && (avail.len() == bd.len() || avail[bd.len() as int] == 45
        || avail[bd.len() as int] == 13 || avail[bd.len() as int] == 10)
}

/// The rest of a boundary line at `p`: whether it closes the form (it
/// starts with `--`), and where the next line starts.
pub open spec fn boundary_suffix(b: Seq<u8>, p: int) -> (bool, int) {
    (has_prefix(line_text(b, p), "--".spec_bytes()), next_line(b, p))
}

/// Scanning for the delimiter `d` from `i` with its first `m` bytes already
/// matched, one byte at a time: a byte that breaks a partial match gives the
/// bytes held back to the payload and starts a new match when it is `d[0]`.
/// `Some(e)` when a whole delimiter ends at `e`; `None` at the end of input.
pub open spec fn delim_scan(b: Seq<u8>, d: Seq<u8>, i: int, m: int) -> Option<int>
    decreases b.len() - i,
{
    if i < 0 || i >= b.len() || m < 0 || m >= d.len() {
        None
    } else if b[i] == d[m] {
        if m + 1 == d.len() {
            Some(i + 1)
        } else {
            delim_scan(b, d, i + 1, m + 1)
        }
    } else if b[i] == d[0] {
        delim_scan(b, d, i + 1, 1)
    } else {
        delim_scan(b, d, i + 1, 0)
    }
}

/// A delimiter found by the scan ends after the held-back bytes and within
/// the input.
pub proof fn lemma_delim_scan(b: Seq<u8>, d: Seq<u8>, i: int, m: int, pos: int)
    requires
        0 <= pos <= i - m,
        0 <= m,
        2 <= d.len(),
    ensures
        delim_scan(b, d, i, m) matches Some(e) ==> pos <= e - d.len() && i < e <= b.len(),
    decreases b.len() - i,
{
    if 0 <= i < b.len() && m < d.len() {
        if b[i] == d[m] {
            if m + 1 != d.len() {
                lemma_delim_scan(b, d, i + 1, m + 1, pos);
            }
        } else if b[i] == d[0] {
            lemma_delim_scan(b, d, i + 1, 1, pos);
        } else {
            lemma_delim_scan(b, d, i + 1, 0, pos);
        }
    }
}

/// With nothing held back, bytes other than `d[0]` are passed over.
pub proof fn lemma_delim_scan_skip(b: Seq<u8>, d: Seq<u8>, i: int, k: int)
    requires
        0 <= i <= k <= b.len(),
        2 <= d.len(),
        forall|j: int| i <= j < k ==> b[j] != d[0],
    ensures
        delim_scan(b, d, i, 0) == delim_scan(b, d, k, 0),
    decreases k - i,
{
    if i < k {
        lemma_delim_scan_skip(b, d, i + 1, k);
    }
}

/// Where no match starts, the search passes on.
pub proof fn lemma_find_from_skip(s: Seq<u8>, pat: Seq<u8>, i: int, j: int)
    requires
        0 <= i <= j,
        forall|k: int| i <= k < j ==> !#[trigger] matches_at(s, k, pat),
    ensures
        find_from(s, pat, i) == find_from(s, pat, j),
    decreases j - i,
{
    if i < j {
        assert(!matches_at(s, i, pat));
        if i + pat.len() <= s.len() && i >= s.len() {
            assert(s.subrange(i, i + pat.len()) =~= pat);
        }
        lemma_find_from_skip(s, pat, i + 1, j);
    }
}

/// A delimiter whose first byte occurs nowhere else in it.
pub open spec fn head_unique(d: Seq<u8>) -> bool {
    2 <= d.len() && forall|j: int| 1 <= j < d.len() ==> #[trigger] d[j] != d[0]
}

/// With `m` bytes of a delimiter whose first byte occurs nowhere else in it
/// held back, the scan ends just after the first occurrence of the
/// delimiter at or after the held-back bytes.
pub proof fn lemma_scan_finds_first(b: Seq<u8>, d: Seq<u8>, i: int, m: int)
    requires
        head_unique(d),
        0 <= m < d.len(),
        m <= i <= b.len(),
        b.subrange(i - m, i) == d.subrange(0, m),
    ensures
        delim_scan(b, d, i, m) == (match find_from(b, d, i - m) {
            Some(k) => Some(k + d.len()),
            None => None::<int>,
        }),
    decreases b.len() - i,
{
    if i == b.len() {
        return;
    }
    if b[i] == d[m] {
        assert(b.subrange(i - m, i + 1) =~= d.subrange(0, m + 1)) by {
            assert forall|t: int| 0 <= t < m + 1 implies #[trigger] b.subrange(i - m, i + 1)[t] == d.subrange(0, m + 1)[t] by {
                if t < m {
                    assert(b.subrange(i - m, i)[t] == d.subrange(0, m)[t]);
                }
            }
        }
        if m + 1 == d.len() {
            assert(d.subrange(0, m + 1) =~= d);
            assert(matches_at(b, i - m, d));
        } else {
            lemma_scan_finds_first(b, d, i + 1, m + 1);
        }
    } else {
        assert forall|k: int| i - m <= k < i + 1 implies !#[trigger] matches_at(b, k, d) || (k == i && b[i] == d[0]) by {
            if matches_at(b, k, d) {
                assert(b.subrange(k, k + d.len())[0] == d[0]);
                assert(b[k] == d[0]);
                if k == i - m {
                    assert(b.subrange(k, k + d.len())[m] == d[m]);
                } else if k < i {
                    let t = k - (i - m);
                    assert(b.subrange(i - m, i)[t] == b[i - m + t]);
                    assert(d.subrange(0, m)[t] == d[t]);
                    assert(b[k] == d[t]);
                    assert(1 <= t < d.len());
                }
            }
        }
        lemma_find_from_skip(b, d, i - m, i);
        if b[i] == d[0] {
            assert(b.subrange(i, i + 1) =~= d.subrange(0, 1));
            lemma_scan_finds_first(b, d, i + 1, 1);
        } else {
            assert(b.subrange(i + 1, i + 1) =~= d.subrange(0, 0));
            lemma_find_from_skip(b, d, i, i + 1);
            lemma_scan_finds_first(b, d, i + 1, 0);
        }
    }
}

/// The delimiter of a boundary without a carriage return starts with the
/// only carriage return in it.
pub proof fn lemma_delimiter_head_unique(boundary: Seq<u8>)
    requires
        forall|j: int| 0 <= j < boundary.len() ==> boundary[j] != 13,
    ensures
        head_unique(delimiter(seq![45u8, 45u8] + boundary)),
{
    let d = delimiter(seq![45u8, 45u8] + boundary);
    assert forall|j: int| 1 <= j < d.len() implies #[trigger] d[j] != d[0] by {
        if j >= 4 {
            assert(d[j] == boundary[j - 4]);
        }
    }
}

/// When the boundary holds no carriage return, a part's body (unless the
/// boundary follows at once) is everything up to the first occurrence of
/// CRLF and the boundary line, however the body is laid out.
pub proof fn law_body_ends_at_first_delimiter(b: Seq<u8>, boundary: Seq<u8>, pos: int)
    requires
        forall|j: int| 0 <= j < boundary.len() ==> boundary[j] != 13,
        0 <= pos <= b.len(),
    ensures
        ({
            let bd = seq![45u8, 45u8] + boundary;
            !bare_boundary(b, bd, pos) ==> part_body(b, bd, pos) == match find_from(b, delimiter(bd), pos) {
                None => Err("Unexpected EOF reading part body"@),
                Some(k) => Ok(
                    (
                        b.subrange(pos, k),
                        boundary_suffix(b, k + delimiter(bd).len()).0,
                        boundary_suffix(b, k + delimiter(bd).len()).1,
                    ),
                ),
            }
        }),
{
    let bd = seq![45u8, 45u8] + boundary;
    lemma_delimiter_head_unique(boundary);
    assert(b.subrange(pos, pos) =~= delimiter(bd).subrange(0, 0));
    lemma_scan_finds_first(b, delimiter(bd), pos, 0);
}

/// A part's body from `pos`: everything up to the delimiter the scan finds,
/// then whether the form ends there and where the next part starts.
pub open spec fn part_body(b: Seq<u8>, bd: Seq<u8>, pos: int) -> Result<(Seq<u8>, bool, int), Seq<char>> {
    if bare_boundary(b, bd, pos) {
        let sfx = boundary_suffix(b, pos + bd.len());
        Ok((Seq::empty(), sfx.0, sfx.1))
    } else {
        match delim_scan(b, delimiter(bd), pos, 0) {
            None => Err("Unexpected EOF reading part body"@),
            Some(e) => {
                let sfx = boundary_suffix(b, e);
                Ok((b.subrange(pos, e - delimiter(bd).len()), sfx.0, sfx.1))
            },
        }
    }
}

pub proof fn lemma_part_headers_progress(b: Seq<u8>, pos: int, acc: Seq<(Seq<char>, Seq<char>)>)
    ensures
        part_headers_from(b, pos, acc) matches Ok((_, p1)) ==> pos < p1 <= b.len(),
    decreases b.len() - pos,
{
    if 0 <= pos < b.len() {
        lemma_next_line(b, pos);
        let t = line_text(b, pos);
        if t.len() != 0 {
            let acc2 = match header_of_line(t) {
                Some(kv) => map_set(acc, kv.0, kv.1),
                None => acc,
            };
            lemma_part_headers_progress(b, next_line(b, pos), acc2);
        }
    }
}

pub proof fn lemma_part_body_progress(b: Seq<u8>, bd: Seq<u8>, pos: int)
    requires
        0 <= pos <= b.len(),
    ensures
        part_body(b, bd, pos) matches Ok((_, _, p2)) ==> pos <= p2 <= b.len(),
{
    lemma_byte_pos_from(b, 10, pos + bd.len());
    lemma_delim_scan(b, delimiter(bd), pos, 0, pos);
    if let Some(e) = delim_scan(b, delimiter(bd), pos, 0) {
        lemma_byte_pos_from(b, 10, e);
    }
}

/// A field as the form describes it.
pub open spec fn field_of(hs: Seq<(Seq<char>, Seq<char>)>, cd: Seq<char>, name: Seq<u8>, data: Seq<u8>) -> FieldView {
    FieldView {
        name,
        filename: find_param_from(str_bytes(cd), 0, "filename".spec_bytes(), false),
        content_type: match lookup_ci_chars(hs, "content-type".spec_bytes()) {
            Some(v) => Some(str_bytes(v)),
            None => None,
        },
        data,
    }
}

/// The parts of a form from `pos` on, after the fields `acc`: each part has
/// headers, needs a `Content-Disposition` header with a `name` parameter,
/// and a body; the part whose boundary line closes the form is the last.
pub open spec fn parts_from(b: Seq<u8>, bd: Seq<u8>, pos: int, acc: Seq<FieldView>) -> Result<Seq<FieldView>, Seq<char>>
    decreases b.len() - pos,
{
    match part_headers_from(b, pos, Seq::empty()) {
        Err(m) => Err(m),
        Ok(h) => match lookup_ci_chars(h.0, "content-disposition".spec_bytes()) {
            None => Err("Missing Content-Disposition header"@),
            Some(cd) => match find_param_from(str_bytes(cd), 0, "name".spec_bytes(), false) {
                None => Err("Missing 'name' in Content-Disposition"@),
                Some(name) => {
                    proof {
                        lemma_part_headers_progress(b, pos, Seq::empty());
                        lemma_part_body_progress(b, bd, h.1);
                    }
                    match part_body(b, bd, h.1) {
                        Err(m) => Err(m),
                        Ok(pb) => {
                            let f = field_of(h.0, cd, name, pb.0);
                            if pb.1 {
                                Ok(acc.push(f))
                            } else {
                                parts_from(b, bd, pb.2, acc.push(f))
                            }
                        },
                    }
                },
            },
        },
    }
}

/// A field is named by the `name` parameter it was given, unchanged: not
/// lowercased, trimmed further or otherwise rewritten.
pub proof fn law_field_name_is_the_name_parameter(hs: Seq<(Seq<char>, Seq<char>)>, cd: Seq<char>, name: Seq<u8>, data: Seq<u8>)
    ensures
        field_of(hs, cd, name, data).name == name,
        field_of(hs, cd, name, data).data == data,
{
}

/// Reading parts keeps the fields read before them, in order.
pub proof fn lemma_parts_from_keeps(b: Seq<u8>, bd: Seq<u8>, pos: int, acc: Seq<FieldView>)
    ensures
        parts_from(b, bd, pos, acc) matches Ok(fs) ==> acc.len() < fs.len() && fs.subrange(0, acc.len() as int) == acc,
    decreases b.len() - pos,
{
    lemma_part_headers_progress(b, pos, Seq::empty());
    if let Ok(h) = part_headers_from(b, pos, Seq::empty()) {
        lemma_part_body_progress(b, bd, h.1);
        if let Some(cd) = lookup_ci_chars(h.0, "content-disposition".spec_bytes()) {
            if let Some(name) = find_param_from(str_bytes(cd), 0, "name".spec_bytes(), false) {
                if let Ok(pb) = part_body(b, bd, h.1) {
                    let f = field_of(h.0, cd, name, pb.0);
                    if pb.1 {
                        assert(acc.push(f).subrange(0, acc.len() as int) =~= acc);
                    } else {
                        lemma_parts_from_keeps(b, bd, pb.2, acc.push(f));
                        if let Ok(fs) = parts_from(b, bd, pb.2, acc.push(f)) {
                            assert(fs.subrange(0, acc.len() as int) =~= fs.subrange(0, acc.len() + 1int).subrange(
                                0,
                                acc.len() as int,
                            ));
                            assert(acc.push(f).subrange(0, acc.len() as int) =~= acc);
                        }
                    }
                }
            }
        }
    }
}

/// In a parsed form, the field a part gives carries, unchanged, the `name`
/// parameter of that part's `Content-Disposition` header, and the part's
/// body as its data.
pub proof fn law_parsed_field_named_by_its_part(b: Seq<u8>, bd: Seq<u8>, pos: int, acc: Seq<FieldView>)
    requires
        parts_from(b, bd, pos, acc) is Ok,
    ensures
        ({
            let fs = parts_from(b, bd, pos, acc)->Ok_0;
            &&& part_headers_from(b, pos, Seq::empty()) matches Ok(h)
            &&& lookup_ci_chars(h.0, "content-disposition".spec_bytes()) matches Some(cd)
            &&& find_param_from(str_bytes(cd), 0, "name".spec_bytes(), false) matches Some(name)
            &&& part_body(b, bd, h.1) matches Ok(pb)
            &&& acc.len() < fs.len()
            &&& fs[acc.len() as int].name == name
            &&& fs[acc.len() as int].data == pb.0
        }),
{
    lemma_part_headers_progress(b, pos, Seq::empty());
    let h = part_headers_from(b, pos, Seq::empty())->Ok_0;
    lemma_part_body_progress(b, bd, h.1);
    let cd = lookup_ci_chars(h.0, "content-disposition".spec_bytes())->0;
    let name = find_param_from(str_bytes(cd), 0, "name".spec_bytes(), false)->0;
    let pb = part_body(b, bd, h.1)->Ok_0;
    let f = field_of(h.0, cd, name, pb.0);
    if !pb.1 {
        lemma_parts_from_keeps(b, bd, pb.2, acc.push(f));
        let fs = parts_from(b, bd, pb.2, acc.push(f))->Ok_0;
        assert(fs[acc.len() as int] == fs.subrange(0, acc.len() + 1int)[acc.len() as int]);
    }
}

/// The fields of a `multipart/form-data` body with the given boundary.
pub open spec fn multipart_spec(b: Seq<u8>, boundary: Seq<u8>) -> Result<Seq<FieldView>, Seq<char>> {
    let bd = seq![45u8, 45u8] + boundary;
    match preamble_from(b, bd, 0) {
        Err(m) => Err(m),
        Ok(pre) => if pre.0 {
            Ok(Seq::empty())
        } else {
            parts_from(b, bd, pre.1, Seq::empty())
        },
    }
}


/// Just after the line that starts at `pos`.
pub(crate) fn line_end(body: &[u8], pos: usize) -> (r: usize)
    requires
        pos <= body@.len(),
    ensures
        r == next_line(body@, pos as int),
        pos <= r <= body@.len(),
{
    let n = body.len();
    proof {
        lemma_byte_pos_from(body@, 10, pos as int);
    }
    match find_byte(body, 10, pos) {
        Some(k) => k + 1,
        None => body.len(),
    }
}

/// End of `body[pos..end]` once its line ending is dropped.
pub(crate) fn trimmed_end(body: &[u8], pos: usize, end: usize) -> (r: usize)
    requires
        pos <= end <= body@.len(),
    ensures
        pos <= r <= end,
        body@.subrange(pos as int, r as int) == trim_newline(body@.subrange(pos as int, end as int)),
{
    let ghost s = body@.subrange(pos as int, end as int);
    let mut e = end;
    if e > pos && body[e - 1] == 10 {
        e = e - 1;
    }
    if e > pos && body[e - 1] == 13 {
        e = e - 1;
    }
    proof {
        let s1 = if s.len() > 0 && s.last() == 10 {
            s.drop_last()
        } else {
            s
        };
        assert(s.len() > 0 ==> s.last() == body@[end - 1]);
        if s.len() > 0 && s.last() == 10 {
            assert(s1 =~= body@.subrange(pos as int, end - 1));
        }
        assert(body@.subrange(pos as int, e as int) =~= trim_newline(s));
    }
    e
}

/// Skips to the first boundary line.
pub(crate) fn skip_preamble(body: &[u8], bd: &[u8]) -> (r: Result<(bool, usize), String>)
    ensures
        match r {
            Ok(v) => preamble_from(body@, bd@, 0) == Ok::<(bool, int), Seq<char>>((v.0, v.1 as int)),
            Err(m) => preamble_from(body@, bd@, 0) == Err::<(bool, int), Seq<char>>(m@),
        },
{
    let mut pos: usize = 0;
    let dash: [u8; 2] = [45, 45];
    assert(dash@ =~= "--".spec_bytes()) by {
        reveal_strlit("--");
        crate::text::lemma_ascii_encode("--"@);
    }
    loop
        invariant
            pos <= body@.len(),
            dash@ == "--".spec_bytes(),
            preamble_from(body@, bd@, 0) == preamble_from(body@, bd@, pos as int),
        decreases body@.len() - pos,
    {
        if pos >= body.len() {
            return Err(to_owned_string("Unexpected EOF searching for initial boundary"));
        }
        let next = line_end(body, pos);
        let te = trimmed_end(body, pos, next);
        let t = slice_range(body, pos, te);
        proof {
            lemma_next_line(body@, pos as int);
        }
        if t.len() == 0 {
            pos = next;
            continue;
        }
        if bytes_equal(t, bd) {
            return Ok((false, next));
        }
        if bytes_start_with(t, bd) && bytes_end_with(t, dash.as_slice()) {
            return Ok((true, next));
        }
        pos = next;
    }
}

/// The index of the entry with key `k`.
pub(crate) fn find_key(m: &[(String, String)], k: &str) -> (r: Option<usize>)
    ensures
        opt_int(r) == key_index(m@.map_values(|e: (String, String)| (e.0@, e.1@)), k@),
{
    let ghost mv = m@.map_values(|e: (String, String)| (e.0@, e.1@));
    let mut i: usize = m.len();
    assert(mv.subrange(0, i as int) =~= mv);
    while i > 0
        invariant
            mv == m@.map_values(|e: (String, String)| (e.0@, e.1@)),
            i <= m@.len(),
            key_index(mv, k@) == key_index(mv.subrange(0, i as int), k@),
        decreases i,
    {
        assert(mv.subrange(0, i as int).drop_last() =~= mv.subrange(0, i - 1));
        assert(mv.subrange(0, i as int).last() == mv[i - 1]);
        if str_same(m[i - 1].0.as_str(), k) {
            return Some(i - 1);
        }
        i = i - 1;
    }
    None
}

pub proof fn lemma_key_index(m: Seq<(Seq<char>, Seq<char>)>, k: Seq<char>)
    ensures
        key_index(m, k) matches Some(i) ==> 0 <= i < m.len() && m[i].0 == k,
    decreases m.len(),
{
    if m.len() > 0 && m.last().0 != k {
        lemma_key_index(m.drop_last(), k);
    }
}

/// Sets `k` to `v`, replacing an entry with the same key.
fn set_header(m: &mut Vec<(String, String)>, k: String, v: String)
    ensures
        final(m)@.map_values(|e: (String, String)| (e.0@, e.1@)) == map_set(
            old(m)@.map_values(|e: (String, String)| (e.0@, e.1@)),
            k@,
            v@,
        ),
{
    let ghost mv = m@.map_values(|e: (String, String)| (e.0@, e.1@));
    let ghost kv = (k@, v@);
    proof {
        lemma_key_index(mv, k@);
    }
    match find_key(m.as_slice(), k.as_str()) {
        Some(i) => {
            m.set(i, (k, v));
            assert(m@.map_values(|e: (String, String)| (e.0@, e.1@)) =~= mv.update(i as int, kv));
        },
        None => {
            m.push((k, v));
            assert(m@.map_values(|e: (String, String)| (e.0@, e.1@)) =~= mv.push(kv));
        },
    }
}

/// The header a line holds, if it has a colon.
fn header_line(t: &[u8]) -> (r: Option<(String, String)>)
    ensures
        match r {
            Some(kv) => header_of_line(t@) == Some((kv.0@, kv.1@)),
            None => header_of_line(t@) is None,
        },
{
    let hs = lossy_string(t);
    let hstr = hs.as_str();
    let hb = hstr.as_bytes();
    let n = hb.len();
    let ghost hv = hb@;
    proof {
        lemma_str_valid(hstr);
        lemma_byte_pos_from(hv, 58, 0);
    }
    match find_byte(hb, 58, 0) {
        Some(c) => {
            proof {
                lemma_boundary_near_ascii(hv, 0);
                lemma_boundary_near_ascii(hv, c as int);
                lemma_boundary_near_ascii(hv, c + 1);
                lemma_boundary_near_ascii(hv, hv.len() as int);
            }
            let ks = substr(hstr, 0, c);
            let vs = substr(hstr, c + 1, hb.len());
            proof {
                lemma_decode_of_bytes(ks);
                lemma_decode_of_bytes(vs);
            }
            let key = lowercase_string(trim_str(ks));
            let value = to_owned_string(trim_str(vs));
            Some((key, value))
        },
        None => None,
    }
}

/// Reads a part's header lines from `pos`.
pub(crate) fn read_part_headers(body: &[u8], pos: usize) -> (r: Result<(Vec<(String, String)>, usize), String>)
    requires
        pos <= body@.len(),
    ensures
        match r {
            Ok(v) => part_headers_from(body@, pos as int, Seq::empty()) == Ok::<
                (Seq<(Seq<char>, Seq<char>)>, int),
                Seq<char>,
            >((v.0@.map_values(|e: (String, String)| (e.0@, e.1@)), v.1 as int)),
            Err(m) => part_headers_from(body@, pos as int, Seq::empty()) == Err::<
                (Seq<(Seq<char>, Seq<char>)>, int),
                Seq<char>,
            >(m@),
        },
{
    let mut headers: Vec<(String, String)> = Vec::new();
    let mut p: usize = pos;
    assert(headers@.map_values(|e: (String, String)| (e.0@, e.1@)) =~= Seq::<(Seq<char>, Seq<char>)>::empty());
    loop
        invariant
            pos <= p <= body@.len(),
            part_headers_from(body@, pos as int, Seq::empty()) == part_headers_from(
                body@,
                p as int,
                headers@.map_values(|e: (String, String)| (e.0@, e.1@)),
            ),
        decreases body@.len() - p,
    {
        if p >= body.len() {
            return Err(to_owned_string("Unexpected EOF reading part headers"));
        }
        let next = line_end(body, p);
        let te = trimmed_end(body, p, next);
        proof {
            lemma_next_line(body@, p as int);
        }
        if te == p {
            return Ok((headers, next));
        }
        let t = slice_range(body, p, te);
        match header_line(t) {
            Some((k, v)) => {
                set_header(&mut headers, k, v);
            },
            None => {},
        }
        p = next;
    }
}

/// The value of the first header whose name equals `name` up to ASCII case.
fn lookup_header<'m>(m: &'m Vec<(String, String)>, name: &[u8]) -> (r: Option<&'m String>)
    ensures
        match r {
            Some(v) => lookup_ci_chars(m@.map_values(|e: (String, String)| (e.0@, e.1@)), name@) == Some(v@),
            None => lookup_ci_chars(m@.map_values(|e: (String, String)| (e.0@, e.1@)), name@) is None,
        },
{
    let ghost mv = m@.map_values(|e: (String, String)| (e.0@, e.1@));
    let mut i: usize = 0;
    assert(mv.subrange(0, mv.len() as int) =~= mv);
    while i < m.len()
        invariant
            mv == m@.map_values(|e: (String, String)| (e.0@, e.1@)),
            i <= m@.len(),
            lookup_ci_chars(mv, name@) == lookup_ci_chars(mv.subrange(i as int, mv.len() as int), name@),
        decreases m@.len() - i,
    {
        assert(mv.subrange(i as int, mv.len() as int).drop_first() =~= mv.subrange(i + 1, mv.len() as int));
        assert(mv.subrange(i as int, mv.len() as int)[0] == mv[i as int]);
        if bytes_eq_ignore_case(m[i].0.as_str().as_bytes(), name) {
            return Some(&m[i].1);
        }
        i = i + 1;
    }
    None
}

/// Reads the rest of a boundary line at `p`.
fn read_boundary_suffix(body: &[u8], p: usize) -> (r: (bool, usize))
    requires
        p <= body@.len(),
    ensures
        (r.0, r.1 as int) == boundary_suffix(body@, p as int),
{
    let next = line_end(body, p);
    let te = trimmed_end(body, p, next);
    let dash: [u8; 2] = [45, 45];
    assert(dash@ =~= "--".spec_bytes()) by {
        reveal_strlit("--");
        crate::text::lemma_ascii_encode("--"@);
    }
    let closing = bytes_start_with(slice_range(body, p, te), dash.as_slice());
    (closing, next)
}

/// Reads a part's body from `pos`: up to the first CRLF and boundary line.
fn read_part_body(body: &[u8], bd: &[u8], pos: usize) -> (r: Result<(Vec<u8>, bool, usize), String>)
    requires
        pos <= body@.len(),
    ensures
        match r {
            Ok(v) => part_body(body@, bd@, pos as int) == Ok::<(Seq<u8>, bool, int), Seq<char>>(
                (v.0@, v.1, v.2 as int),
            ),
            Err(m) => part_body(body@, bd@, pos as int) == Err::<(Seq<u8>, bool, int), Seq<char>>(
                m@,
            ),
        },
{
    let avail = slice_range(body, pos, body.len());
    if bytes_start_with(avail, bd) {
        let after = pos + bd.len();
        if bd.len() == avail.len() || body[after] == 45 || body[after] == 13 || body[after] == 10 {
            let (closing, next) = read_boundary_suffix(body, after);
            return Ok((Vec::new(), closing, next));
        }
    }
    let mut delim: Vec<u8> = Vec::new();
    delim.push(13);
    delim.push(10);
    push_bytes(&mut delim, bd);
    assert(delim@ =~= delimiter(bd@));
    proof {
        lemma_delim_scan(body@, delim@, pos as int, 0, pos as int);
    }
    match scan_delimiter(body, delim.as_slice(), pos) {
        None => Err(to_owned_string("Unexpected EOF reading part body")),
        Some(e) => {
            let data = bytes_to_vec(slice_range(body, pos, e - delim.len()));
            let (closing, next) = read_boundary_suffix(body, e);
            Ok((data, closing, next))
        },
    }
}

/// Runs the delimiter scan from `pos`, passing over the bytes that cannot
/// start a delimiter with `memchr` while nothing is held back.
pub(crate) fn scan_delimiter(body: &[u8], d: &[u8], pos: usize) -> (r: Option<usize>)
    requires
        pos <= body@.len(),
        2 <= d@.len(),
        d@[0] == 13,
    ensures
        opt_int(r) == delim_scan(body@, d@, pos as int, 0),
{
    let mut i: usize = pos;
    let mut m: usize = 0;
    loop
        invariant
            pos <= i <= body@.len(),
            m < d@.len(),
            2 <= d@.len(),
            d@[0] == 13,
            delim_scan(body@, d@, pos as int, 0) == delim_scan(body@, d@, i as int, m as int),
        decreases body@.len() - i,
    {
        if m == 0 {
            proof {
                lemma_byte_pos_from(body@, 13, i as int);
            }
            match memchr_in(13, body, i, body.len()) {
                None => {
                    proof {
                        lemma_delim_scan_skip(body@, d@, i as int, body@.len() as int);
                    }
                    return None;
                },
                Some(k) => {
                    proof {
                        lemma_delim_scan_skip(body@, d@, i as int, k as int);
                    }
                    i = k + 1;
                    m = 1;
                },
            }
        } else {
            if i >= body.len() {
                return None;
            }
            let byte = body[i];
            if byte == d[m] {
                if m + 1 == d.len() {
                    return Some(i + 1);
                }
                m = m + 1;
            } else if byte == 13 {
                m = 1;
            } else {
                m = 0;
            }
            i = i + 1;
        }
    }
}

/// Parses one part from `pos`: its field, whether it was the last, and
/// where the next part starts.
fn parse_single_part(body: &[u8], bd: &[u8], pos: usize) -> (r: Result<(FormField, bool, usize), String>)
    requires
        pos <= body@.len(),
    ensures
        match r {
            Ok(v) => part_headers_from(body@, pos as int, Seq::empty()) matches Ok(h) && lookup_ci_chars(
                h.0,
                "content-disposition".spec_bytes(),
            ) matches Some(cd) && find_param_from(str_bytes(cd), 0, "name".spec_bytes(), false)
                matches Some(name) && part_body(body@, bd@, h.1) matches Ok(pb) && v.0@ == field_of(
                h.0,
                cd,
                name,
                pb.0,
            ) && v.1 == pb.1 && v.2 == pb.2,
            Err(m) => part_failure(body@, bd@, pos as int) == Some(m@),
        },
{
    let (headers, p1) = match read_part_headers(body, pos) {
        Ok(h) => h,
        Err(m) => return Err(m),
    };
    proof {
        lemma_part_headers_progress(body@, pos as int, Seq::empty());
    }
    let cd = match lookup_header(&headers, "content-disposition".as_bytes()) {
        Some(v) => v,
        None => return Err(to_owned_string("Missing Content-Disposition header")),
    };
    let name = match parse_param(cd.as_str(), "name") {
        Some(n) => n,
        None => return Err(to_owned_string("Missing 'name' in Content-Disposition")),
    };
    let filename = parse_param(cd.as_str(), "filename");
    let content_type: Option<String> = match lookup_header(&headers, "content-type".as_bytes()) {
        Some(v) => Some(v.clone()),
        None => None,
    };
    let (data, is_closing, p2) = match read_part_body(body, bd, p1) {
        Ok(b) => b,
        Err(m) => return Err(m),
    };
    Ok((FormField { name, filename, content_type, data }, is_closing, p2))
}

/// Parses a multipart body using the specified boundary.
pub fn parse_multipart(body: &[u8], boundary: &str) -> (r: Result<Vec<FormField>, String>)
    ensures
        match r {
            Ok(fields) => multipart_spec(body@, boundary.spec_bytes()) == Ok::<Seq<FieldView>, Seq<char>>(
                fields@.map_values(|f: FormField| f@),
            ),
            Err(m) => multipart_spec(body@, boundary.spec_bytes()) == Err::<Seq<FieldView>, Seq<char>>(m@),
        },
{
    let mut bd: Vec<u8> = Vec::new();
    bd.push(45);
    bd.push(45);
    push_bytes(&mut bd, boundary.as_bytes());
    assert(bd@ =~= seq![45u8, 45u8] + boundary.spec_bytes());
    let (is_empty_payload, start) = match skip_preamble(body, bd.as_slice()) {
        Ok(v) => v,
        Err(m) => return Err(m),
    };
    let mut fields: Vec<FormField> = Vec::new();
    if is_empty_payload {
        assert(fields@.map_values(|f: FormField| f@) =~= Seq::<FieldView>::empty());
        return Ok(fields);
    }
    let mut pos: usize = start;
    assert(fields@.map_values(|f: FormField| f@) =~= Seq::<FieldView>::empty());
    proof {
        lemma_next_line_bound(body@, bd@, 0);
    }
    loop
        invariant
            pos <= body@.len(),
            bd@ == seq![45u8, 45u8] + boundary.spec_bytes(),
            multipart_spec(body@, boundary.spec_bytes()) == parts_from(
                body@,
                bd@,
                pos as int,
                fields@.map_values(|f: FormField| f@),
            ),
        decreases body@.len() - pos,
    {
        let ghost acc = fields@.map_values(|f: FormField| f@);
        proof {
            lemma_part_headers_progress(body@, pos as int, Seq::empty());
        }
        let (field, is_closing, next) = match parse_single_part(body, bd.as_slice(), pos) {
            Ok(v) => v,
            Err(m) => {
                proof {
                    lemma_parts_from_err(body@, bd@, pos as int, acc);
                }
                return Err(m);
            },
        };
        proof {
            let h = part_headers_from(body@, pos as int, Seq::empty())->Ok_0;
            lemma_part_body_progress(body@, bd@, h.1);
        }
        let ghost f = field@;
        fields.push(field);
        assert(fields@.map_values(|f: FormField| f@) =~= acc.push(f));
        if is_closing {
            return Ok(fields);
        }
        pos = next;
    }
}

/// Where the preamble ends lies within the body.
pub proof fn lemma_next_line_bound(b: Seq<u8>, bd: Seq<u8>, pos: int)
    requires
        0 <= pos,
    ensures
        preamble_from(b, bd, pos) matches Ok(v) ==> v.1 <= b.len(),
    decreases b.len() - pos,
{
    if pos < b.len() {
        lemma_next_line(b, pos);
        lemma_next_line_bound(b, bd, next_line(b, pos));
    }
}

/// The error that stops the part at `pos` before it yields a field, if any.
pub open spec fn part_failure(b: Seq<u8>, bd: Seq<u8>, pos: int) -> Option<Seq<char>> {
    match part_headers_from(b, pos, Seq::empty()) {
        Err(m) => Some(m),
        Ok(h) => match lookup_ci_chars(h.0, "content-disposition".spec_bytes()) {
            None => Some("Missing Content-Disposition header"@),
            Some(cd) => match find_param_from(str_bytes(cd), 0, "name".spec_bytes(), false) {
                None => Some("Missing 'name' in Content-Disposition"@),
                Some(_) => match part_body(b, bd, h.1) {
                    Err(m) => Some(m),
                    Ok(_) => None,
                },
            },
        },
    }
}

/// A failure of a part fails the whole form, whatever came before it.
proof fn lemma_parts_from_err(b: Seq<u8>, bd: Seq<u8>, pos: int, acc: Seq<FieldView>)
    requires
        part_failure(b, bd, pos) is Some,
    ensures
        parts_from(b, bd, pos, acc) == Err::<Seq<FieldView>, Seq<char>>(part_failure(b, bd, pos)->Some_0),
{
}

/// In particular, the first field of a parsed form carries, unchanged, the
/// `name` parameter of the first part's `Content-Disposition` header.
pub proof fn law_first_field_named_by_first_part(b: Seq<u8>, boundary: Seq<u8>)
    requires
        multipart_spec(b, boundary) matches Ok(fs) && fs.len() > 0,
    ensures
        ({
            let bd = seq![45u8, 45u8] + boundary;
            let fs = multipart_spec(b, boundary)->Ok_0;
            &&& preamble_from(b, bd, 0) matches Ok(pre)
            &&& part_headers_from(b, pre.1, Seq::empty()) matches Ok(h)
            &&& lookup_ci_chars(h.0, "content-disposition".spec_bytes()) matches Some(cd)
            &&& find_param_from(str_bytes(cd), 0, "name".spec_bytes(), false) matches Some(name)
            &&& fs[0].name == name
        }),
{
    let bd = seq![45u8, 45u8] + boundary;
    let pre = preamble_from(b, bd, 0)->Ok_0;
    law_parsed_field_named_by_its_part(b, bd, pre.1, Seq::empty());
}

} // verus!
