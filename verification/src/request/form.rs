//! A `multipart/form-data` reader that takes names as they are written: the
//! boundary comes from the header stored under the key `content-type`, a
//! part's headers are looked up by their lowercased names, and a parameter
//! is `name=value` with the name in exact case.
use vstd::prelude::*;
use vstd::string::*;
use vstd::utf8::*;

use crate::request::multipart::{
    delim_scan, delimiter, find_key, lemma_delimiter_head_unique, lemma_scan_finds_first, key_index, lemma_delim_scan, lemma_key_index,
    lemma_next_line_bound, lemma_part_headers_progress, line_end, next_line,
    part_headers_from, preamble_from, read_part_headers, scan_delimiter, seg_end, skip_preamble,
    trimmed, FieldView, opt_text_bytes,
};
use crate::text::{
    bytes_eq_ignore_case, bytes_start_with, bytes_to_vec, eq_ignore_case, find_byte, find_from, has_prefix,
    lemma_boundary_near_ascii, lemma_byte_pos_from, lemma_decode_of_bytes, lemma_str_valid,
    push_bytes, slice_range, str_bytes, strip_ascii, strip_byte, substr, to_owned_string,
    trim_str,
};

verus! {

broadcast use vstd::seq_lib::group_seq_properties;

/// A field of a multipart form.
#[derive(Debug, PartialEq, Eq)]
pub struct MultipartField {
    pub name: String,
    pub filename: Option<String>,
    pub content_type: Option<String>,
    pub data: Vec<u8>,
}

impl View for MultipartField {
    type V = FieldView;

    open spec fn view(&self) -> FieldView {
        FieldView {
            name: str_bytes(self.name@),
            filename: opt_text_bytes(self.filename),
            content_type: opt_text_bytes(self.content_type),
            data: self.data@,
        }
    }
}

// ---------------------------------------------------------------------
// Prefixed parameters

/// `s` starts with `p` up to ASCII case.
pub open spec fn starts_with_ci(s: Seq<u8>, p: Seq<u8>) -> bool {
    p.len() <= s.len() && eq_ignore_case(s.subrange(0, p.len() as int), p)
}

/// `t` starts with `target`, up to ASCII case when `ci`.
pub open spec fn prefix_match(t: Seq<u8>, target: Seq<u8>, ci: bool) -> bool {
    if ci {
        starts_with_ci(t, target)
    } else {
        has_prefix(t, target)
    }
}

/// In the `;`-separated segments of `s` from `pos` on, the first one that,
/// trimmed, starts with `target`: what follows `target` in it, stripped of
/// `"`.
pub open spec fn prefixed_param_from(s: Seq<u8>, pos: int, target: Seq<u8>, ci: bool) -> Option<Seq<u8>>
    decreases s.len() - pos,
{
    if pos < 0 || pos > s.len() {
        None
    } else {
        let end = seg_end(s, pos);
        proof {
            lemma_byte_pos_from(s, 59, pos);
        }
        let t = trimmed(s.subrange(pos, end));
        if prefix_match(t, target, ci) {
            Some(strip_byte(t.subrange(target.len() as int, t.len() as int), 34))
        } else if end < s.len() {
            prefixed_param_from(s, end + 1, target, ci)
        } else {
            None
        }
    }
}

/// The boundary a `Content-Type` value declares: the value must start with
/// `multipart/form-data`, and the first segment starting with `boundary=`
/// gives it (ASCII case ignored in both, which is what lowercasing the
/// value first amounts to for these ASCII words).
pub open spec fn declared_boundary(ct: Seq<u8>) -> Option<Seq<u8>> {
    if !starts_with_ci(ct, "multipart/form-data".spec_bytes()) {
        None
    } else {
        prefixed_param_from(ct, 0, "boundary=".spec_bytes(), true)
    }
}

/// A header list as pairs of strings.
pub open spec fn pairs_view(headers: Seq<(String, String)>) -> Seq<(Seq<char>, Seq<char>)> {
    headers.map_values(|e: (String, String)| (e.0@, e.1@))
}

/// The value stored under key `k`: the last entry with that key, as a map
/// built by successive inserts keeps it.
pub open spec fn value_of(m: Seq<(Seq<char>, Seq<char>)>, k: Seq<char>) -> Option<Seq<char>> {
    match key_index(m, k) {
        Some(i) => Some(m[i].1),
        None => None,
    }
}

/// The boundary of a request whose headers are `headers` (keys as stored,
/// so the key must be exactly `content-type`).
pub open spec fn boundary_of_headers(headers: Seq<(Seq<char>, Seq<char>)>) -> Option<Seq<u8>> {
    match value_of(headers, "content-type"@) {
        Some(ct) => declared_boundary(str_bytes(ct)),
        None => None,
    }
}

/// Searches the segments of `s` from byte `pos` on for one that, trimmed,
/// starts with `target`.
fn find_prefixed<'a>(s: &'a str, pos: usize, target: &[u8], ci: bool) -> (r: Option<&'a str>)
    requires
        pos <= s.spec_bytes().len(),
        pos == 0 || s.spec_bytes()[pos - 1] == 59,
        target@.len() > 0,
        target@.last() == 61,
    ensures
        match r {
            Some(v) => prefixed_param_from(s.spec_bytes(), pos as int, target@, ci) == Some(v.spec_bytes()),
            None => prefixed_param_from(s.spec_bytes(), pos as int, target@, ci) is None,
        },
{
    let b = s.as_bytes();
    let ghost sv = b@;
    proof {
        lemma_str_valid(s);
    }
    let n = target.len();
    let mut p: usize = pos;
    loop
        invariant
            b@ == sv,
            sv == s.spec_bytes(),
            valid_utf8(sv),
            n == target@.len(),
            n > 0,
            target@.last() == 61,
            p <= sv.len(),
            p == 0 || sv[p - 1] == 59,
            prefixed_param_from(sv, pos as int, target@, ci) == prefixed_param_from(sv, p as int, target@, ci),
        decreases sv.len() - p,
    {
        proof {
            lemma_byte_pos_from(sv, 59, p as int);
        }
        let end: usize = match find_byte(b, 59, p) {
            Some(k) => k,
            None => b.len(),
        };
        proof {
            lemma_boundary_near_ascii(sv, p as int);
            lemma_boundary_near_ascii(sv, end as int);
        }
        let seg = substr(s, p, end);
        proof {
            lemma_decode_of_bytes(seg);
        }
        let t = trim_str(seg);
        let tb = t.as_bytes();
        let ghost tv = tb@;
        proof {
            lemma_str_valid(t);
            lemma_decode_of_bytes(t);
            assert(tv == trimmed(sv.subrange(p as int, end as int)));
        }
        let matched = if n <= tb.len() {
            if ci {
                bytes_eq_ignore_case(slice_range(tb, 0, n), target)
            } else {
                bytes_start_with(tb, target)
            }
        } else {
            false
        };
        assert(matched == prefix_match(tv, target@, ci));
        if matched {
            proof {
                if ci {
                    assert(crate::text::ascii_lower(tv.subrange(0, n as int)[n - 1]) == crate::text::ascii_lower(
                        target@[n - 1],
                    ));
                } else {
                    assert(tv.subrange(0, n as int)[n - 1] == target@[n - 1]);
                }
                assert(tv[n - 1] == 61);
                lemma_boundary_near_ascii(tv, n as int);
                lemma_boundary_near_ascii(tv, tv.len() as int);
            }
            let rest = substr(t, n, tb.len());
            let v = strip_ascii(rest, 34);
            return Some(v);
        }
        if end == b.len() {
            return None;
        }
        p = end + 1;
    }
}

/// The boundary of a `multipart/form-data` request, from the header stored
/// under `content-type`: `None` when there is none, when its value does not
/// start with `multipart/form-data`, or when no `boundary=` segment follows.
pub fn extract_multipart_boundary(headers: &[(String, String)]) -> (r: Option<String>)
    ensures
        match r {
            Some(b) => boundary_of_headers(pairs_view(headers@)) == Some(str_bytes(b@)),
            None => boundary_of_headers(pairs_view(headers@)) is None,
        },
{
    proof {
        lemma_key_index(pairs_view(headers@), "content-type"@);
    }
    let i = match find_key(headers, "content-type") {
        Some(i) => i,
        None => return None,
    };
    let content_type = headers[i].1.as_str();
    assert(content_type@ == pairs_view(headers@)[i as int].1);
    let cb = content_type.as_bytes();
    let prefix = "multipart/form-data".as_bytes();
    let starts = prefix.len() <= cb.len() && bytes_eq_ignore_case(slice_range(cb, 0, prefix.len()), prefix);
    if !starts {
        return None;
    }
    let key = "boundary=".as_bytes();
    assert(key@.len() > 0 && key@.last() == 61) by {
        reveal_strlit("boundary=");
        crate::text::lemma_ascii_encode("boundary="@);
    }
    match find_prefixed(content_type, 0, key, true) {
        Some(v) => Some(to_owned_string(v)),
        None => None,
    }
}

/// The value of parameter `key` in a header value such as
/// `form-data; name="a"`: the text after `key=` in the first segment that
/// starts with it once trimmed, stripped of `"`.
fn parse_param(header: &str, key: &str) -> (r: Option<String>)
    ensures
        match r {
            Some(v) => prefixed_param_from(header.spec_bytes(), 0, key.spec_bytes().push(61), false) == Some(
                str_bytes(v@),
            ),
            None => prefixed_param_from(header.spec_bytes(), 0, key.spec_bytes().push(61), false) is None,
        },
{
    let mut target: Vec<u8> = Vec::new();
    push_bytes(&mut target, key.as_bytes());
    target.push(61);
    assert(target@ =~= key.spec_bytes().push(61));
    match find_prefixed(header, 0, target.as_slice(), false) {
        Some(v) => Some(to_owned_string(v)),
        None => None,
    }
}

// ---------------------------------------------------------------------
// Bodies

/// The rest of a boundary line at `p` closes the form when it starts with
/// `--`.
pub open spec fn dashes_follow(b: Seq<u8>, p: int) -> bool {
    has_prefix(b.subrange(p, b.len() as int), "--".spec_bytes())
}

/// A part's body from `pos`: empty when the boundary follows at once,
/// otherwise everything up to the delimiter the scan finds; then whether the
/// form ends there and where the next part starts.
pub open spec fn body_from(b: Seq<u8>, bd: Seq<u8>, pos: int) -> Result<(Seq<u8>, bool, int), Seq<char>> {
    if has_prefix(b.subrange(pos, b.len() as int), bd) {
        let p = pos + bd.len();
        Ok((Seq::empty(), dashes_follow(b, p), next_line(b, p)))
    } else {
        match delim_scan(b, delimiter(bd), pos, 0) {
            None => Err("Unexpected EOF reading part body"@),
            Some(e) => Ok((b.subrange(pos, e - delimiter(bd).len()), dashes_follow(b, e), next_line(b, e))),
        }
    }
}

pub proof fn lemma_body_from_progress(b: Seq<u8>, bd: Seq<u8>, pos: int)
    requires
        0 <= pos <= b.len(),
    ensures
        body_from(b, bd, pos) matches Ok((_, _, p2)) ==> pos <= p2 <= b.len(),
{
    lemma_byte_pos_from(b, 10, pos + bd.len());
    lemma_delim_scan(b, delimiter(bd), pos, 0, pos);
    if let Some(e) = delim_scan(b, delimiter(bd), pos, 0) {
        lemma_byte_pos_from(b, 10, e);
    }
}

/// When the boundary holds no carriage return, a part's body (unless the
/// boundary follows at once) is everything up to the first occurrence of
/// CRLF and the boundary line.
pub proof fn law_form_body_ends_at_first_delimiter(b: Seq<u8>, boundary: Seq<u8>, pos: int)
    requires
        forall|j: int| 0 <= j < boundary.len() ==> boundary[j] != 13,
        0 <= pos <= b.len(),
    ensures
        ({
            let bd = seq![45u8, 45u8] + boundary;
            let dl = delimiter(bd).len();
            !has_prefix(b.subrange(pos, b.len() as int), bd) ==> body_from(b, bd, pos) == match find_from(
                b,
                delimiter(bd),
                pos,
            ) {
                None => Err("Unexpected EOF reading part body"@),
                Some(k) => Ok((b.subrange(pos, k), dashes_follow(b, k + dl), next_line(b, k + dl))),
            }
        }),
{
    let bd = seq![45u8, 45u8] + boundary;
    lemma_delimiter_head_unique(boundary);
    assert(b.subrange(pos, pos) =~= delimiter(bd).subrange(0, 0));
    lemma_scan_finds_first(b, delimiter(bd), pos, 0);
}

/// A field as the part describes it.
pub open spec fn form_field(hs: Seq<(Seq<char>, Seq<char>)>, cd: Seq<char>, name: Seq<u8>, data: Seq<u8>) -> FieldView {
    FieldView {
        name,
        filename: prefixed_param_from(str_bytes(cd), 0, "filename=".spec_bytes(), false),
        content_type: match value_of(hs, "content-type"@) {
            Some(v) => Some(str_bytes(v)),
            None => None,
        },
        data,
    }
}

/// The parts of a form from `pos` on, after the fields `acc`: each part has
/// headers, a `content-disposition` header with a `name=` parameter, and a
/// body; the part whose boundary line closes the form is the last.
pub open spec fn fields_from(b: Seq<u8>, bd: Seq<u8>, pos: int, acc: Seq<FieldView>) -> Result<Seq<FieldView>, Seq<char>>
    decreases b.len() - pos,
{
    match part_headers_from(b, pos, Seq::empty()) {
        Err(m) => Err(m),
        Ok(h) => match value_of(h.0, "content-disposition"@) {
            None => Err("Missing Content-Disposition header"@),
            Some(cd) => match prefixed_param_from(str_bytes(cd), 0, "name=".spec_bytes(), false) {
                None => Err("Missing 'name' in Content-Disposition"@),
                Some(name) => {
                    proof {
                        lemma_part_headers_progress(b, pos, Seq::empty());
                        lemma_body_from_progress(b, bd, h.1);
                    }
                    match body_from(b, bd, h.1) {
                        Err(m) => Err(m),
                        Ok(pb) => {
                            let f = form_field(h.0, cd, name, pb.0);
                            if pb.1 {
                                Ok(acc.push(f))
                            } else {
                                fields_from(b, bd, pb.2, acc.push(f))
                            }
                        },
                    }
                },
            },
        },
    }
}

/// The error that stops the part at `pos` before it yields a field, if any.
pub open spec fn field_failure(b: Seq<u8>, bd: Seq<u8>, pos: int) -> Option<Seq<char>> {
    match part_headers_from(b, pos, Seq::empty()) {
        Err(m) => Some(m),
        Ok(h) => match value_of(h.0, "content-disposition"@) {
            None => Some("Missing Content-Disposition header"@),
            Some(cd) => match prefixed_param_from(str_bytes(cd), 0, "name=".spec_bytes(), false) {
                None => Some("Missing 'name' in Content-Disposition"@),
                Some(_) => match body_from(b, bd, h.1) {
                    Err(m) => Some(m),
                    Ok(_) => None,
                },
            },
        },
    }
}

/// The fields of a `multipart/form-data` body with the given boundary.
pub open spec fn form_spec(b: Seq<u8>, boundary: Seq<u8>) -> Result<Seq<FieldView>, Seq<char>> {
    let bd = seq![45u8, 45u8] + boundary;
    match preamble_from(b, bd, 0) {
        Err(m) => Err(m),
        Ok(pre) => if pre.0 {
            Ok(Seq::empty())
        } else {
            fields_from(b, bd, pre.1, Seq::empty())
        },
    }
}

/// Whether the form ends after the boundary line at `p`, and where the next
/// line starts.
fn boundary_rest(body: &[u8], p: usize) -> (r: (bool, usize))
    requires
        p <= body@.len(),
    ensures
        r.0 == dashes_follow(body@, p as int),
        r.1 == next_line(body@, p as int),
{
    let dash: [u8; 2] = [45, 45];
    assert(dash@ =~= "--".spec_bytes()) by {
        reveal_strlit("--");
        crate::text::lemma_ascii_encode("--"@);
    }
    let closing = bytes_start_with(slice_range(body, p, body.len()), dash.as_slice());
    (closing, line_end(body, p))
}

/// Reads a part's body from `pos`.
fn read_body(body: &[u8], bd: &[u8], pos: usize) -> (r: Result<(Vec<u8>, bool, usize), String>)
    requires
        pos <= body@.len(),
    ensures
        match r {
            Ok(v) => body_from(body@, bd@, pos as int) == Ok::<(Seq<u8>, bool, int), Seq<char>>(
                (v.0@, v.1, v.2 as int),
            ),
            Err(m) => body_from(body@, bd@, pos as int) == Err::<(Seq<u8>, bool, int), Seq<char>>(m@),
        },
{
    if bytes_start_with(slice_range(body, pos, body.len()), bd) {
        let (closing, next) = boundary_rest(body, pos + bd.len());
        return Ok((Vec::new(), closing, next));
    }
    let mut delim: Vec<u8> = Vec::new();
    delim.push(13);
    delim.push(10);
    push_bytes(&mut delim, bd);
    assert(delim@ =~= delimiter(bd@));
    proof {
        lemma_delim_scan(body@, delim@, pos as int, 0, pos as int);
    }
    match scan_delimiter(body, delim.as_slice(), pos) {
        None => Err(to_owned_string("Unexpected EOF reading part body")),
        Some(e) => {
            let data = bytes_to_vec(slice_range(body, pos, e - delim.len()));
            let (closing, next) = boundary_rest(body, e);
            Ok((data, closing, next))
        },
    }
}

/// Parses one part from `pos`: its field, whether it was the last, and
/// where the next part starts.
fn read_field(body: &[u8], bd: &[u8], pos: usize) -> (r: Result<(MultipartField, bool, usize), String>)
    requires
        pos <= body@.len(),
    ensures
        match r {
            Ok(v) => part_headers_from(body@, pos as int, Seq::empty()) matches Ok(h) && value_of(
                h.0,
                "content-disposition"@,
            ) matches Some(cd) && prefixed_param_from(str_bytes(cd), 0, "name=".spec_bytes(), false)
                matches Some(name) && body_from(body@, bd@, h.1) matches Ok(pb) && v.0@ == form_field(
                h.0,
                cd,
                name,
                pb.0,
            ) && v.1 == pb.1 && v.2 == pb.2,
            Err(m) => field_failure(body@, bd@, pos as int) == Some(m@),
        },
{
    let (headers, p1) = match read_part_headers(body, pos) {
        Ok(h) => h,
        Err(m) => return Err(m),
    };
    let ghost hv = pairs_view(headers@);
    assert(hv == headers@.map_values(|e: (String, String)| (e.0@, e.1@)));
    proof {
        lemma_part_headers_progress(body@, pos as int, Seq::empty());
        lemma_key_index(hv, "content-disposition"@);
        lemma_key_index(hv, "content-type"@);
    }
    let cd = match find_key(headers.as_slice(), "content-disposition") {
        Some(i) => headers[i].1.as_str(),
        None => return Err(to_owned_string("Missing Content-Disposition header")),
    };
    proof {
        reveal_strlit("name");
        reveal_strlit("name=");
        reveal_strlit("filename");
        reveal_strlit("filename=");
        crate::text::lemma_ascii_encode("name"@);
        crate::text::lemma_ascii_encode("name="@);
        crate::text::lemma_ascii_encode("filename"@);
        crate::text::lemma_ascii_encode("filename="@);
        assert("name".spec_bytes().push(61) =~= "name=".spec_bytes());
        assert("filename".spec_bytes().push(61) =~= "filename=".spec_bytes());
    }
    let name = match parse_param(cd, "name") {
        Some(n) => n,
        None => return Err(to_owned_string("Missing 'name' in Content-Disposition")),
    };
    let filename = parse_param(cd, "filename");
    let content_type: Option<String> = match find_key(headers.as_slice(), "content-type") {
        Some(i) => Some(headers[i].1.clone()),
        None => None,
    };
    let (data, is_closing, p2) = match read_body(body, bd, p1) {
        Ok(b) => b,
        Err(m) => return Err(m),
    };
    Ok((MultipartField { name, filename, content_type, data }, is_closing, p2))
}

/// A failure of a part fails the whole form, whatever came before it.
proof fn lemma_fields_from_err(b: Seq<u8>, bd: Seq<u8>, pos: int, acc: Seq<FieldView>)
    requires
        field_failure(b, bd, pos) is Some,
    ensures
        fields_from(b, bd, pos, acc) == Err::<Seq<FieldView>, Seq<char>>(field_failure(b, bd, pos)->Some_0),
{
}

/// Parses a multipart body using the specified boundary.
pub fn parse_multipart(body: &[u8], boundary: &str) -> (r: Result<Vec<MultipartField>, String>)
    ensures
        match r {
            Ok(fields) => form_spec(body@, boundary.spec_bytes()) == Ok::<Seq<FieldView>, Seq<char>>(
                fields@.map_values(|f: MultipartField| f@),
            ),
            Err(m) => form_spec(body@, boundary.spec_bytes()) == Err::<Seq<FieldView>, Seq<char>>(m@),
        },
{
    let mut bd: Vec<u8> = Vec::new();
    bd.push(45);
    bd.push(45);
    push_bytes(&mut bd, boundary.as_bytes());
    assert(bd@ =~= seq![45u8, 45u8] + boundary.spec_bytes());
    let (is_empty_payload, start) = match skip_preamble(body, bd.as_slice()) {
        Ok(v) => v,
        Err(m) => return Err(m),
    };
    let mut fields: Vec<MultipartField> = Vec::new();
    assert(fields@.map_values(|f: MultipartField| f@) =~= Seq::<FieldView>::empty());
    if is_empty_payload {
        return Ok(fields);
    }
    let mut pos: usize = start;
    proof {
        lemma_next_line_bound(body@, bd@, 0);
    }
    loop
        invariant
            pos <= body@.len(),
            bd@ == seq![45u8, 45u8] + boundary.spec_bytes(),
            form_spec(body@, boundary.spec_bytes()) == fields_from(
                body@,
                bd@,
                pos as int,
                fields@.map_values(|f: MultipartField| f@),
            ),
        decreases body@.len() - pos,
    {
        let ghost acc = fields@.map_values(|f: MultipartField| f@);
        proof {
            lemma_part_headers_progress(body@, pos as int, Seq::empty());
        }
        let (field, is_closing, next) = match read_field(body, bd.as_slice(), pos) {
            Ok(v) => v,
            Err(m) => {
                proof {
                    lemma_fields_from_err(body@, bd@, pos as int, acc);
                }
                return Err(m);
            },
        };
        proof {
            let h = part_headers_from(body@, pos as int, Seq::empty())->Ok_0;
            lemma_body_from_progress(body@, bd@, h.1);
        }
        let ghost f = field@;
        fields.push(field);
        assert(fields@.map_values(|f: MultipartField| f@) =~= acc.push(f));
        if is_closing {
            return Ok(fields);
        }
        pos = next;
    }
}

} // verus!
