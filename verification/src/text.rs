//! Byte and string primitives shared by the parsers: searching, splitting,
//! ASCII case folding, whitespace trimming and integer parsing, with the
//! mathematical statements the rest of the crate is specified against.
use vstd::prelude::*;
use vstd::utf8::*;
use vstd::string::*;

verus! {

broadcast use vstd::seq_lib::group_seq_properties;

/// `pat` occurs in `s` starting at index `i`.
pub open spec fn matches_at(s: Seq<u8>, i: int, pat: Seq<u8>) -> bool {
    0 <= i && i + pat.len() <= s.len() && s.subrange(i, i + pat.len()) == pat
}

/// Index of the first occurrence of `pat` in `s` at or after `i`.
pub open spec fn find_from(s: Seq<u8>, pat: Seq<u8>, i: int) -> Option<int>
    decreases s.len() - i,
{
    if i < 0 || i > s.len() || i + pat.len() > s.len() {
        None
    } else if matches_at(s, i, pat) {
        Some(i)
    } else if i >= s.len() {
        None
    } else {
        find_from(s, pat, i + 1)
    }
}

/// Index of the first byte equal to `b` in `s` at or after `i`.
pub open spec fn byte_pos_from(s: Seq<u8>, b: u8, i: int) -> Option<int>
    decreases s.len() - i,
{
    if i < 0 || i >= s.len() {
        None
    } else if s[i] == b {
        Some(i)
    } else {
        byte_pos_from(s, b, i + 1)
    }
}

/// Index of the first byte equal to `b` in `s`.
pub open spec fn byte_pos(s: Seq<u8>, b: u8) -> Option<int> {
    byte_pos_from(s, b, 0)
}

/// Index of the last byte equal to `b` in `s`.
pub open spec fn last_byte_pos(s: Seq<u8>, b: u8) -> Option<int>
    decreases s.len(),
{
    if s.len() == 0 {
        None
    } else if s.last() == b {
        Some(s.len() - 1)
    } else {
        last_byte_pos(s.drop_last(), b)
    }
}

/// An `Option<usize>` read as an optional mathematical index.
pub open spec fn opt_int(r: Option<usize>) -> Option<int> {
    match r {
        Some(k) => Some(k as int),
        None => None,
    }
}

pub proof fn lemma_find_from(s: Seq<u8>, pat: Seq<u8>, i: int)
    requires
        0 <= i,
    ensures
        match find_from(s, pat, i) {
            Some(k) => i <= k && k + pat.len() <= s.len() && matches_at(s, k, pat) && forall|j: int|
                i <= j < k ==> !#[trigger] matches_at(s, j, pat),
            None => forall|j: int| i <= j ==> !#[trigger] matches_at(s, j, pat),
        },
    decreases s.len() - i,
{
    if i > s.len() || i + pat.len() > s.len() {
    } else if matches_at(s, i, pat) {
    } else if i >= s.len() {
    } else {
        lemma_find_from(s, pat, i + 1);
    }
}

pub proof fn lemma_byte_pos_from(s: Seq<u8>, b: u8, i: int)
    requires
        0 <= i,
    ensures
        match byte_pos_from(s, b, i) {
            Some(k) => i <= k < s.len() && s[k] == b && forall|j: int| i <= j < k ==> s[j] != b,
            None => forall|j: int| i <= j < s.len() ==> s[j] != b,
        },
    decreases s.len() - i,
{
    if i >= s.len() {
    } else if s[i] == b {
    } else {
        lemma_byte_pos_from(s, b, i + 1);
    }
}

/// The first occurrence is unique: any index with the characterising
/// properties is the one `byte_pos_from` names.
pub proof fn lemma_byte_pos_from_unique(s: Seq<u8>, b: u8, i: int, k: int)
    requires
        0 <= i <= k < s.len(),
        s[k] == b,
        forall|j: int| i <= j < k ==> s[j] != b,
    ensures
        byte_pos_from(s, b, i) == Some(k),
    decreases k - i,
{
    if i < k {
        lemma_byte_pos_from_unique(s, b, i + 1, k);
    }
}

pub proof fn lemma_byte_pos_from_none(s: Seq<u8>, b: u8, i: int)
    requires
        0 <= i,
        forall|j: int| i <= j < s.len() ==> s[j] != b,
    ensures
        byte_pos_from(s, b, i) is None,
    decreases s.len() - i,
{
    if i < s.len() {
        lemma_byte_pos_from_none(s, b, i + 1);
    }
}

pub proof fn lemma_last_byte_pos(s: Seq<u8>, b: u8)
    ensures
        match last_byte_pos(s, b) {
            Some(k) => 0 <= k < s.len() && s[k] == b && forall|j: int| k < j < s.len() ==> s[j] != b,
            None => forall|j: int| 0 <= j < s.len() ==> s[j] != b,
        },
    decreases s.len(),
{
    if s.len() > 0 && s.last() != b {
        let t = s.drop_last();
        lemma_last_byte_pos(t, b);
        assert forall|j: int| 0 <= j < t.len() implies t[j] == s[j] by {}
    }
}

/// Searching a subrange is searching the whole sequence, shifted.
pub proof fn lemma_byte_pos_subrange(s: Seq<u8>, b: u8, lo: int, hi: int, i: int)
    requires
        0 <= lo <= i <= hi <= s.len(),
    ensures
        byte_pos_from(s.subrange(lo, hi), b, i - lo) == (match byte_pos_from(s, b, i) {
            Some(k) => if k < hi {
                Some(k - lo)
            } else {
                None
            },
            None => None,
        }),
    decreases hi - i,
{
    if i < hi {
        lemma_byte_pos_subrange(s, b, lo, hi, i + 1);
    } else {
        lemma_byte_pos_from(s, b, i);
    }
}

/// Index of the first occurrence of byte `b` in `s[from..]`, as `memchr`
/// would report it on that subslice, shifted back to an index into `s`.
pub fn find_byte(s: &[u8], b: u8, from: usize) -> (r: Option<usize>)
    requires
        from <= s@.len(),
    ensures
        opt_int(r) == byte_pos_from(s@, b, from as int),
{
    let mut i: usize = from;
    while i < s.len()
        invariant
            from <= i <= s@.len(),
            byte_pos_from(s@, b, from as int) == byte_pos_from(s@, b, i as int),
        decreases s@.len() - i,
    {
        if s[i] == b {
            return Some(i);
        }
        i = i + 1;
    }
    None
}

/// Index of the last byte equal to `b`.
pub fn rfind_byte(s: &[u8], b: u8) -> (r: Option<usize>)
    ensures
        opt_int(r) == last_byte_pos(s@, b),
{
    let mut i: usize = s.len();
    assert(s@.subrange(0, i as int) =~= s@);
    while i > 0
        invariant
            i <= s@.len(),
            last_byte_pos(s@, b) == last_byte_pos(s@.subrange(0, i as int), b),
        decreases i,
    {
        assert(s@.subrange(0, i as int).drop_last() =~= s@.subrange(0, i - 1));
        if s[i - 1] == b {
            return Some(i - 1);
        }
        i = i - 1;
    }
    None
}

/// Whether `pat` occurs in `s` at index `i`.
pub fn bytes_match_at(s: &[u8], i: usize, pat: &[u8]) -> (r: bool)
    ensures
        r == matches_at(s@, i as int, pat@),
{
    if i > s.len() || pat.len() > s.len() - i {
        return false;
    }
    let mut j: usize = 0;
    while j < pat.len()
        invariant
            i + pat@.len() <= s@.len(),
            j <= pat@.len(),
            i + pat@.len() <= usize::MAX,
            forall|t: int| 0 <= t < j ==> s@[i + t] == pat@[t],
        decreases pat@.len() - j,
    {
        if s[i + j] != pat[j] {
            assert(s@.subrange(i as int, i + pat@.len())[j as int] != pat@[j as int]);
            return false;
        }
        j = j + 1;
    }
    assert(s@.subrange(i as int, i + pat@.len()) =~= pat@);
    true
}

/// Index of the first occurrence of `pat` in `s` at or after `from`.
pub fn find_bytes(s: &[u8], pat: &[u8], from: usize) -> (r: Option<usize>)
    requires
        from <= s@.len(),
    ensures
        opt_int(r) == find_from(s@, pat@, from as int),
{
    let mut i: usize = from;
    loop
        invariant
            from <= i <= s@.len(),
            find_from(s@, pat@, from as int) == find_from(s@, pat@, i as int),
        decreases s@.len() - i,
    {
        if pat.len() > s.len() - i {
            return None;
        }
        if bytes_match_at(s, i, pat) {
            return Some(i);
        }
        if i >= s.len() {
            return None;
        }
        i = i + 1;
    }
}


/// `memchr::memchr`: the index of the first byte of `haystack` equal to
/// `needle`, or `None` when no byte is.
#[verifier::external_body]
pub(crate) fn memchr_first(needle: u8, haystack: &[u8]) -> (r: Option<usize>)
    ensures
        match r {
            Some(k) => k < haystack@.len() && haystack@[k as int] == needle && forall|j: int|
                0 <= j < k ==> haystack@[j] != needle,
            None => forall|j: int| 0 <= j < haystack@.len() ==> haystack@[j] != needle,
        },
{
    memchr::memchr(needle, haystack)
}

/// The first occurrence of `needle` in `s[from..end]`, found with `memchr`
/// and reported as an index into `s`.
pub fn memchr_in(needle: u8, s: &[u8], from: usize, end: usize) -> (r: Option<usize>)
    requires
        from <= end <= s@.len(),
    ensures
        opt_int(r) == byte_pos_in(s@, needle, from as int, end as int),
{
    let sub = slice_range(s, from, end);
    let r = memchr_first(needle, sub);
    proof {
        let t = s@.subrange(0, end as int);
        lemma_byte_pos_subrange(s@, needle, 0, end as int, from as int);
        lemma_byte_pos_from(s@, needle, from as int);
        match r {
            Some(k) => {
                assert forall|j: int| from <= j < from + k implies t[j] != needle by {
                    assert(sub@[j - from] == t[j]);
                }
                assert(sub@[k as int] == t[from + k]);
                lemma_byte_pos_from_unique(t, needle, from as int, from + k);
            },
            None => {
                assert forall|j: int| from <= j < t.len() implies t[j] != needle by {
                    assert(sub@[j - from] == t[j]);
                }
                lemma_byte_pos_from_none(t, needle, from as int);
            },
        }
    }
    match r {
        Some(k) => Some(from + k),
        None => None,
    }
}

/// `s[from..end]`.
pub fn slice_range(s: &[u8], from: usize, end: usize) -> (r: &[u8])
    requires
        from <= end <= s@.len(),
    ensures
        r@ == s@.subrange(from as int, end as int),
{
    &s[from..end]
}

/// A copy of `s` as an owned vector.
pub fn bytes_to_vec(s: &[u8]) -> (r: Vec<u8>)
    ensures
        r@ == s@,
{
    let mut v: Vec<u8> = Vec::with_capacity(s.len());
    let mut i: usize = 0;
    while i < s.len()
        invariant
            i <= s@.len(),
            v@ == s@.subrange(0, i as int),
        decreases s@.len() - i,
    {
        v.push(s[i]);
        i = i + 1;
        assert(v@ =~= s@.subrange(0, i as int));
    }
    assert(s@.subrange(0, s@.len() as int) =~= s@);
    v
}

/// Appends the bytes of `s` to `v`.
pub fn push_bytes(v: &mut Vec<u8>, s: &[u8])
    ensures
        final(v)@ == old(v)@ + s@,
{
    let ghost start = v@;
    let mut i: usize = 0;
    while i < s.len()
        invariant
            i <= s@.len(),
            v@ == start + s@.subrange(0, i as int),
        decreases s@.len() - i,
    {
        v.push(s[i]);
        i = i + 1;
        assert(v@ =~= start + s@.subrange(0, i as int));
    }
    assert(s@.subrange(0, s@.len() as int) =~= s@);
}

/// Appends the UTF-8 bytes of `s` to `v`.
pub fn push_str(v: &mut Vec<u8>, s: &str)
    ensures
        final(v)@ == old(v)@ + s.spec_bytes(),
{
    push_bytes(v, s.as_bytes());
}

// ---------------------------------------------------------------------
// ASCII case folding

pub open spec fn ascii_lower(b: u8) -> u8 {
    if 65 <= b <= 90 {
        (b + 32) as u8
    } else {
        b
    }
}

/// Two byte strings are equal up to ASCII case.
pub open spec fn eq_ignore_case(a: Seq<u8>, b: Seq<u8>) -> bool {
    a.len() == b.len() && forall|i: int| 0 <= i < a.len() ==> ascii_lower(a[i]) == ascii_lower(b[i])
}

pub fn to_ascii_lower(b: u8) -> (r: u8)
    ensures
        r == ascii_lower(b),
{
    if b >= 65 && b <= 90 {
        b + 32
    } else {
        b
    }
}

/// ASCII case-insensitive equality of two byte strings.
pub fn bytes_eq_ignore_case(a: &[u8], b: &[u8]) -> (r: bool)
    ensures
        r == eq_ignore_case(a@, b@),
{
    if a.len() != b.len() {
        return false;
    }
    let mut i: usize = 0;
    while i < a.len()
        invariant
            a@.len() == b@.len(),
            i <= a@.len(),
            forall|j: int| 0 <= j < i ==> ascii_lower(a@[j]) == ascii_lower(b@[j]),
        decreases a@.len() - i,
    {
        if to_ascii_lower(a[i]) != to_ascii_lower(b[i]) {
            return false;
        }
        i = i + 1;
    }
    true
}

/// Exact equality of two byte strings.
pub fn bytes_equal(a: &[u8], b: &[u8]) -> (r: bool)
    ensures
        r == (a@ == b@),
{
    if a.len() != b.len() {
        return false;
    }
    let r = bytes_match_at(a, 0, b);
    assert(a@.subrange(0, b@.len() as int) =~= a@);
    r
}

/// Exact equality of two strings, byte for byte.
pub fn str_equal(a: &str, b: &str) -> (r: bool)
    ensures
        r == (a.spec_bytes() == b.spec_bytes()),
{
    bytes_equal(a.as_bytes(), b.as_bytes())
}

/// Equality of two strings as character sequences.
pub fn str_same(a: &str, b: &str) -> (r: bool)
    ensures
        r == (a@ == b@),
{
    let r = bytes_equal(a.as_bytes(), b.as_bytes());
    proof {
        encode_utf8_decode_utf8(a@);
        encode_utf8_decode_utf8(b@);
    }
    r
}

/// Whether `s` begins with `prefix`.
pub open spec fn has_prefix(s: Seq<u8>, prefix: Seq<u8>) -> bool {
    prefix.len() <= s.len() && s.subrange(0, prefix.len() as int) == prefix
}

pub fn bytes_start_with(s: &[u8], prefix: &[u8]) -> (r: bool)
    ensures
        r == has_prefix(s@, prefix@),
{
    bytes_match_at(s, 0, prefix)
}

/// Whether `s` ends with `suffix`.
pub open spec fn has_suffix(s: Seq<u8>, suffix: Seq<u8>) -> bool {
    suffix.len() <= s.len() && s.subrange(s.len() - suffix.len(), s.len() as int) == suffix
}

pub fn bytes_end_with(s: &[u8], suffix: &[u8]) -> (r: bool)
    ensures
        r == has_suffix(s@, suffix@),
{
    if suffix.len() > s.len() {
        return false;
    }
    bytes_match_at(s, s.len() - suffix.len(), suffix)
}

// ---------------------------------------------------------------------
// Optional whitespace (SP / HTAB) as HTTP uses it

pub open spec fn is_ows(b: u8) -> bool {
    b == 0x20 || b == 0x09
}

/// Number of leading SP / HTAB bytes of `s`.
pub open spec fn lead_ows(s: Seq<u8>) -> nat
    decreases s.len(),
{
    if s.len() > 0 && is_ows(s[0]) {
        1 + lead_ows(s.drop_first())
    } else {
        0
    }
}

/// Number of trailing SP / HTAB bytes of `s`.
pub open spec fn trail_ows(s: Seq<u8>) -> nat
    decreases s.len(),
{
    if s.len() > 0 && is_ows(s.last()) {
        1 + trail_ows(s.drop_last())
    } else {
        0
    }
}

/// `s` without its leading and trailing SP / HTAB bytes.
pub open spec fn trim_ows(s: Seq<u8>) -> Seq<u8> {
    let a = lead_ows(s) as int;
    let b = s.len() - trail_ows(s.subrange(a, s.len() as int));
    s.subrange(a, b)
}

pub proof fn lemma_lead_ows(s: Seq<u8>)
    ensures
        lead_ows(s) <= s.len(),
        forall|j: int| 0 <= j < lead_ows(s) ==> is_ows(s[j]),
        lead_ows(s) < s.len() ==> !is_ows(s[lead_ows(s) as int]),
    decreases s.len(),
{
    if s.len() > 0 && is_ows(s[0]) {
        lemma_lead_ows(s.drop_first());
        assert forall|j: int| 0 <= j < lead_ows(s) implies is_ows(s[j]) by {
            if j > 0 {
                assert(s[j] == s.drop_first()[j - 1]);
            }
        }
    }
}

pub proof fn lemma_trail_ows(s: Seq<u8>)
    ensures
        trail_ows(s) <= s.len(),
        forall|j: int| s.len() - trail_ows(s) <= j < s.len() ==> is_ows(s[j]),
        trail_ows(s) < s.len() ==> !is_ows(s[s.len() - trail_ows(s) - 1]),
    decreases s.len(),
{
    if s.len() > 0 && is_ows(s.last()) {
        lemma_trail_ows(s.drop_last());
        assert forall|j: int| s.len() - trail_ows(s) <= j < s.len() implies is_ows(s[j]) by {
            if j < s.len() - 1 {
                assert(s[j] == s.drop_last()[j]);
            }
        }
    }
}

/// Index of the first byte of `s[from..end]` that is not SP / HTAB.
pub fn skip_ows(s: &[u8], from: usize, end: usize) -> (r: usize)
    requires
        from <= end <= s@.len(),
    ensures
        r == from + lead_ows(s@.subrange(from as int, end as int)),
        from <= r <= end,
{
    let ghost t = s@.subrange(from as int, end as int);
    let mut i: usize = from;
    while i < end && (s[i] == 0x20 || s[i] == 0x09)
        invariant
            from <= i <= end <= s@.len(),
            lead_ows(t) == (i - from) + lead_ows(s@.subrange(i as int, end as int)),
        decreases end - i,
    {
        assert(s@.subrange(i as int, end as int).drop_first() =~= s@.subrange(i + 1, end as int));
        i = i + 1;
    }
    i
}

/// End (exclusive) of `s[from..end]` once trailing SP / HTAB bytes are dropped.
pub fn rskip_ows(s: &[u8], from: usize, end: usize) -> (r: usize)
    requires
        from <= end <= s@.len(),
    ensures
        r == end - trail_ows(s@.subrange(from as int, end as int)),
        from <= r <= end,
{
    let ghost t = s@.subrange(from as int, end as int);
    let mut i: usize = end;
    proof {
        lemma_trail_ows(t);
    }
    while i > from && (s[i - 1] == 0x20 || s[i - 1] == 0x09)
        invariant
            from <= i <= end <= s@.len(),
            trail_ows(t) == (end - i) + trail_ows(s@.subrange(from as int, i as int)),
        decreases i - from,
    {
        assert(s@.subrange(from as int, i as int).drop_last() =~= s@.subrange(from as int, i - 1));
        i = i - 1;
    }
    proof {
        lemma_trail_ows(s@.subrange(from as int, i as int));
    }
    i
}

// ---------------------------------------------------------------------
// Stripping a repeated byte from both ends (`trim_matches` on an ASCII char)

/// Number of leading bytes of `s` equal to `c`.
pub open spec fn lead_count(s: Seq<u8>, c: u8) -> nat
    decreases s.len(),
{
    if s.len() > 0 && s[0] == c {
        1 + lead_count(s.drop_first(), c)
    } else {
        0
    }
}

/// Number of trailing bytes of `s` equal to `c`.
pub open spec fn trail_count(s: Seq<u8>, c: u8) -> nat
    decreases s.len(),
{
    if s.len() > 0 && s.last() == c {
        1 + trail_count(s.drop_last(), c)
    } else {
        0
    }
}

/// `s` without the bytes equal to `c` at either end.
pub open spec fn strip_byte(s: Seq<u8>, c: u8) -> Seq<u8> {
    let a = lead_count(s, c) as int;
    s.subrange(a, s.len() - trail_count(s.subrange(a, s.len() as int), c))
}

pub proof fn lemma_lead_count(s: Seq<u8>, c: u8)
    ensures
        lead_count(s, c) <= s.len(),
        forall|j: int| 0 <= j < lead_count(s, c) ==> s[j] == c,
    decreases s.len(),
{
    if s.len() > 0 && s[0] == c {
        lemma_lead_count(s.drop_first(), c);
        assert forall|j: int| 0 <= j < lead_count(s, c) implies s[j] == c by {
            if j > 0 {
                assert(s[j] == s.drop_first()[j - 1]);
            }
        }
    }
}

pub proof fn lemma_trail_count(s: Seq<u8>, c: u8)
    ensures
        trail_count(s, c) <= s.len(),
        forall|j: int| s.len() - trail_count(s, c) <= j < s.len() ==> s[j] == c,
    decreases s.len(),
{
    if s.len() > 0 && s.last() == c {
        lemma_trail_count(s.drop_last(), c);
        assert forall|j: int| s.len() - trail_count(s, c) <= j < s.len() implies s[j] == c by {
            if j < s.len() - 1 {
                assert(s[j] == s.drop_last()[j]);
            }
        }
    }
}

/// `s` without the ASCII character `c` at either end (`trim_matches(c)`).
pub fn strip_ascii<'a>(s: &'a str, c: u8) -> (r: &'a str)
    requires
        c < 0x80,
    ensures
        r.spec_bytes() == strip_byte(s.spec_bytes(), c),
{
    let b = s.as_bytes();
    let ghost t = b@;
    proof {
        lemma_str_valid(s);
        lemma_lead_count(t, c);
    }
    let mut i: usize = 0;
    assert(t.subrange(0, t.len() as int) =~= t);
    while i < b.len() && b[i] == c
        invariant
            i <= t.len(),
            b@ == t,
            forall|k: int| 0 <= k < i ==> t[k] == c,
            lead_count(t, c) == i + lead_count(t.subrange(i as int, t.len() as int), c),
        decreases t.len() - i,
    {
        assert(t.subrange(i as int, t.len() as int).drop_first() =~= t.subrange(i + 1, t.len() as int));
        i = i + 1;
    }
    let ghost u = t.subrange(i as int, t.len() as int);
    proof {
        assert(lead_count(u, c) == 0);
        lemma_trail_count(u, c);
        assert(u.subrange(0, u.len() as int) =~= u);
    }
    let mut j: usize = b.len();
    while j > i && b[j - 1] == c
        invariant
            i <= j <= t.len(),
            b@ == t,
            forall|k: int| 0 <= k < i ==> t[k] == c,
            forall|k: int| j <= k < t.len() ==> t[k] == c,
            trail_count(u, c) == (t.len() - j) + trail_count(t.subrange(i as int, j as int), c),
        decreases j - i,
    {
        assert(t.subrange(i as int, j as int).drop_last() =~= t.subrange(i as int, j - 1));
        j = j - 1;
    }
    proof {
        lemma_boundary_near_ascii(t, i as int);
        lemma_boundary_near_ascii(t, j as int);
        assert(strip_byte(t, c) =~= t.subrange(i as int, j as int));
    }
    substr(s, i, j)
}

// ---------------------------------------------------------------------
// UTF-8 character boundaries next to ASCII bytes

/// In valid UTF-8, an ASCII byte is a whole character: both sides of it are
/// character boundaries.
pub proof fn lemma_ascii_boundary(bs: Seq<u8>, i: int)
    requires
        valid_utf8(bs),
        0 <= i < bs.len(),
        bs[i] < 0x80,
    ensures
        is_char_boundary(bs, i),
        is_char_boundary(bs, i + 1),
{
    is_char_boundary_iff_not_is_continuation_byte(bs, i);
    if i + 1 == bs.len() {
        is_char_boundary_start_end_of_seq(bs);
    } else {
        valid_utf8_split(bs, i);
        let suffix = bs.subrange(i, bs.len() as int);
        assert(suffix[0] == bs[i]);
        let rest = pop_first_scalar(suffix);
        assert(rest =~= bs.subrange(i + 1, bs.len() as int));
        assert(valid_utf8(rest));
        is_char_boundary_iff_not_is_continuation_byte(rest, 0);
        assert(rest[0] == bs[i + 1]);
        is_char_boundary_iff_not_is_continuation_byte(bs, i + 1);
    }
}

/// The UTF-8 encoding of ASCII characters is their code points as bytes.
pub proof fn lemma_ascii_encode(chars: Seq<char>)
    requires
        is_ascii_chars(chars),
    ensures
        encode_utf8(chars) =~= chars.map_values(|c: char| c as u8),
{
    is_ascii_chars_encode_utf8(chars);
}

/// The two ends of a string, and any index next to an ASCII byte, are
/// character boundaries.
pub proof fn lemma_boundary_near_ascii(bs: Seq<u8>, i: int)
    requires
        valid_utf8(bs),
        0 <= i <= bs.len(),
        i == 0 || i == bs.len() || bs[i] < 0x80 || bs[i - 1] < 0x80,
    ensures
        is_char_boundary(bs, i),
{
    if i == 0 || i == bs.len() {
        is_char_boundary_start_end_of_seq(bs);
    } else if bs[i] < 0x80 {
        lemma_ascii_boundary(bs, i);
    } else {
        lemma_ascii_boundary(bs, i - 1);
    }
}

/// The first byte equal to `b` in `s[from..end]`, as an index into `s`.
pub open spec fn byte_pos_in(s: Seq<u8>, b: u8, from: int, end: int) -> Option<int> {
    match byte_pos_from(s, b, from) {
        Some(k) => if k < end {
            Some(k)
        } else {
            None
        },
        None => None,
    }
}

pub proof fn lemma_str_valid(s: &str)
    ensures
        valid_utf8(s.spec_bytes()),
{
    encode_utf8_valid_utf8(s@);
}

/// The substring of `s` between two character boundaries.
pub fn substr<'a>(s: &'a str, from: usize, to: usize) -> (r: &'a str)
    requires
        from <= to <= s.spec_bytes().len(),
        is_char_boundary(s.spec_bytes(), from as int),
        is_char_boundary(s.spec_bytes(), to as int),
    ensures
        r.spec_bytes() == s.spec_bytes().subrange(from as int, to as int),
{
    let ghost bs = s.spec_bytes();
    proof {
        lemma_str_valid(s);
        valid_utf8_split(bs, from as int);
    }
    let (_, tail) = s.split_at(from);
    let ghost ts = tail.spec_bytes();
    proof {
        assert(ts =~= bs.subrange(from as int, bs.len() as int));
        if to < bs.len() {
            is_char_boundary_iff_not_is_continuation_byte(bs, to as int);
            assert(ts[to - from] == bs[to as int]);
            is_char_boundary_iff_not_is_continuation_byte(ts, to - from);
        } else {
            is_char_boundary_start_end_of_seq(ts);
        }
    }
    let (mid, _) = tail.split_at(to - from);
    proof {
        assert(mid.spec_bytes() =~= bs.subrange(from as int, to as int));
    }
    mid
}


// ---------------------------------------------------------------------
// Unicode whitespace trimming (`str::trim`)

/// The Unicode `White_Space` property, as `char::is_whitespace` reads it.
pub open spec fn is_white_space(c: char) -> bool {
    let u = c as u32;
    (0x09 <= u <= 0x0d) || u == 0x20 || u == 0x85 || u == 0xa0 || u == 0x1680 || (0x2000 <= u
        <= 0x200a) || u == 0x2028 || u == 0x2029 || u == 0x202f || u == 0x205f || u == 0x3000
}

pub open spec fn lead_ws(s: Seq<char>) -> nat
    decreases s.len(),
{
    if s.len() > 0 && is_white_space(s[0]) {
        1 + lead_ws(s.drop_first())
    } else {
        0
    }
}

pub open spec fn trail_ws(s: Seq<char>) -> nat
    decreases s.len(),
{
    if s.len() > 0 && is_white_space(s.last()) {
        1 + trail_ws(s.drop_last())
    } else {
        0
    }
}

/// `s` without leading and trailing Unicode whitespace.
pub open spec fn trim_ws(s: Seq<char>) -> Seq<char> {
    let rest = s.subrange(lead_ws(s) as int, s.len() as int);
    rest.subrange(0, rest.len() - trail_ws(rest))
}

pub proof fn lemma_lead_ws_len(s: Seq<char>)
    ensures
        lead_ws(s) <= s.len(),
    decreases s.len(),
{
    if s.len() > 0 && is_white_space(s[0]) {
        lemma_lead_ws_len(s.drop_first());
    }
}

pub proof fn lemma_trail_ws_len(s: Seq<char>)
    ensures
        trail_ws(s) <= s.len(),
    decreases s.len(),
{
    if s.len() > 0 && is_white_space(s.last()) {
        lemma_trail_ws_len(s.drop_last());
    }
}

/// `str::trim`: the string without the leading and trailing characters that
/// have the Unicode `White_Space` property.
#[verifier::external_body]
pub(crate) fn trim_str(s: &str) -> (r: &str)
    ensures
        r@ == trim_ws(s@),
{
    s.trim()
}

// ---------------------------------------------------------------------
// UTF-8 decoding

/// The message `std::str::from_utf8` reports, through its error's
/// `Display`, for bytes that are not UTF-8. It depends on the bytes alone
/// (where the first invalid sequence starts, and how long it is).
pub uninterp spec fn utf8_error_text(bytes: Seq<u8>) -> Seq<char>;

/// `std::str::from_utf8`, its error turned into the message it displays:
/// succeeds exactly when the bytes are valid UTF-8, and then yields a
/// string made of those bytes.
#[verifier::external_body]
pub(crate) fn str_from_utf8(v: &[u8]) -> (r: Result<&str, String>)
    ensures
        match r {
            Ok(s) => valid_utf8(v@) && s.spec_bytes() == v@,
            Err(m) => !valid_utf8(v@) && m@ == utf8_error_text(v@),
        },
{
    match std::str::from_utf8(v) {
        Ok(s) => Ok(s),
        Err(e) => Err(e.to_string()),
    }
}

/// What `String::from_utf8_lossy` makes of a byte string: the bytes decoded
/// as UTF-8, with each invalid sequence replaced by U+FFFD.
pub uninterp spec fn lossy_decode(bytes: Seq<u8>) -> Seq<char>;

/// `String::from_utf8_lossy(..).to_string()`. On valid UTF-8 the decoding is
/// exact; on other input each invalid sequence becomes U+FFFD.
#[verifier::external_body]
pub(crate) fn lossy_string(v: &[u8]) -> (r: String)
    ensures
        r@ == lossy_decode(v@),
        valid_utf8(v@) ==> r@ == decode_utf8(v@),
{
    String::from_utf8_lossy(v).to_string()
}

/// What `str::to_lowercase` makes of a string: each character replaced by
/// its Unicode lowercase mapping.
pub uninterp spec fn unicode_lowercase(s: Seq<char>) -> Seq<char>;

/// `str::to_lowercase`.
#[verifier::external_body]
pub(crate) fn lowercase_string(s: &str) -> (r: String)
    ensures
        r@ == unicode_lowercase(s@),
{
    s.to_lowercase()
}

/// The bytes of a string: its characters encoded as UTF-8.
pub open spec fn str_bytes(chars: Seq<char>) -> Seq<u8> {
    encode_utf8(chars)
}

pub proof fn lemma_decode_of_bytes(s: &str)
    ensures
        decode_utf8(s.spec_bytes()) == s@,
        valid_utf8(s.spec_bytes()),
{
    encode_utf8_decode_utf8(s@);
    encode_utf8_valid_utf8(s@);
}

/// An owned copy of `s`.
pub fn to_owned_string(s: &str) -> (r: String)
    ensures
        r@ == s@,
{
    s.to_owned()
}

// ---------------------------------------------------------------------
// Unsigned integer parsing with the semantics of `from_str_radix`

#[derive(Clone, Copy, Debug, PartialEq, Eq, Structural)]
pub enum IntErrorKind {
    /// The input was empty.
    Empty,
    /// A byte was not a digit of the radix.
    InvalidDigit,
    /// The value does not fit the target type.
    PosOverflow,
}

impl IntErrorKind {
    /// The message `ParseIntError` displays for this kind.
    pub fn message(&self) -> (r: &'static str)
        ensures
            r@ == int_error_text(*self),
    {
        match self {
            IntErrorKind::Empty => "cannot parse integer from empty string",
            IntErrorKind::InvalidDigit => "invalid digit found in string",
            IntErrorKind::PosOverflow => "number too large to fit in target type",
        }
    }
}

pub open spec fn int_error_text(k: IntErrorKind) -> Seq<char> {
    match k {
        IntErrorKind::Empty => "cannot parse integer from empty string"@,
        IntErrorKind::InvalidDigit => "invalid digit found in string"@,
        IntErrorKind::PosOverflow => "number too large to fit in target type"@,
    }
}

/// Value of byte `b` as a digit in `radix`, if it is one (`0-9`, then
/// letters of either case from 10 on).
pub open spec fn digit_value(b: u8, radix: nat) -> Option<nat> {
    let d: int = if 48 <= b <= 57 {
        b - 48
    } else if 97 <= b <= 122 {
        b - 97 + 10
    } else if 65 <= b <= 90 {
        b - 65 + 10
    } else {
        99
    };
    if d < radix {
        Some(d as nat)
    } else {
        None
    }
}

/// Left-to-right accumulation of the digits `ds` onto `acc`, failing on the
/// first non-digit or the first step that exceeds `max`.
pub open spec fn scan_uint(ds: Seq<u8>, radix: nat, max: nat, acc: nat) -> Result<nat, IntErrorKind>
    decreases ds.len(),
{
    if ds.len() == 0 {
        Ok(acc)
    } else {
        match digit_value(ds[0], radix) {
            None => Err(IntErrorKind::InvalidDigit),
            Some(d) => if acc * radix + d > max {
                Err(IntErrorKind::PosOverflow)
            } else {
                scan_uint(ds.drop_first(), radix, max, acc * radix + d)
            },
        }
    }
}

/// Parsing of an unsigned integer in `radix` bounded by `max`: an optional
/// `+`, then digits.
pub open spec fn parse_uint(s: Seq<u8>, radix: nat, max: nat) -> Result<nat, IntErrorKind> {
    if s.len() == 0 {
        Err(IntErrorKind::Empty)
    } else if (s[0] == 43 || s[0] == 45) && s.len() == 1 {
        Err(IntErrorKind::InvalidDigit)
    } else if s[0] == 43 {
        scan_uint(s.drop_first(), radix, max, 0)
    } else {
        scan_uint(s, radix, max, 0)
    }
}

pub fn digit_of(b: u8, radix: u32) -> (r: Option<u32>)
    requires
        2 <= radix <= 36,
    ensures
        match r {
            Some(d) => digit_value(b, radix as nat) == Some(d as nat),
            None => digit_value(b, radix as nat) is None,
        },
{
    let d: u32 = if b >= 48 && b <= 57 {
        (b - 48) as u32
    } else if b >= 97 && b <= 122 {
        (b - 97 + 10) as u32
    } else if b >= 65 && b <= 90 {
        (b - 65 + 10) as u32
    } else {
        99
    };
    if d < radix {
        Some(d)
    } else {
        None
    }
}

pub proof fn lemma_scan_uint_bound(ds: Seq<u8>, radix: nat, max: nat, acc: nat)
    requires
        acc <= max,
    ensures
        scan_uint(ds, radix, max, acc) matches Ok(v) ==> v <= max,
    decreases ds.len(),
{
    if ds.len() > 0 {
        if let Some(d) = digit_value(ds[0], radix) {
            if acc * radix + d <= max {
                lemma_scan_uint_bound(ds.drop_first(), radix, max, acc * radix + d);
            }
        }
    }
}

pub proof fn lemma_scan_uint_bound_parse(s: Seq<u8>, radix: nat, max: nat)
    ensures
        parse_uint(s, radix, max) matches Ok(v) ==> v <= max,
{
    if s.len() > 0 {
        lemma_scan_uint_bound(s, radix, max, 0);
        lemma_scan_uint_bound(s.drop_first(), radix, max, 0);
    }
}

/// Parses `s` as an unsigned integer in `radix` that must not exceed `max`.
pub fn parse_uint_bytes(s: &[u8], radix: u32, max: u64) -> (r: Result<u64, IntErrorKind>)
    requires
        2 <= radix <= 36,
    ensures
        match r {
            Ok(v) => parse_uint(s@, radix as nat, max as nat) == Ok::<nat, IntErrorKind>(v as nat),
            Err(e) => parse_uint(s@, radix as nat, max as nat) == Err::<nat, IntErrorKind>(e),
        },
{
    if s.len() == 0 {
        return Err(IntErrorKind::Empty);
    }
    if (s[0] == 43 || s[0] == 45) && s.len() == 1 {
        return Err(IntErrorKind::InvalidDigit);
    }
    let start: usize = if s[0] == 43 {
        1
    } else {
        0
    };
    let ghost ds = s@.subrange(start as int, s@.len() as int);
    proof {
        assert(s@[0] == s[0]);
        if start == 1 {
            assert(ds =~= s@.drop_first());
        } else {
            assert(ds =~= s@);
        }
    }
    let mut acc: u64 = 0;
    let mut i: usize = start;
    while i < s.len()
        invariant
            start <= i <= s@.len(),
            2 <= radix <= 36,
            acc <= max,
            parse_uint(s@, radix as nat, max as nat) == scan_uint(ds, radix as nat, max as nat, 0),
            scan_uint(ds, radix as nat, max as nat, 0) == scan_uint(
                s@.subrange(i as int, s@.len() as int),
                radix as nat,
                max as nat,
                acc as nat,
            ),
        decreases s@.len() - i,
    {
        let ghost rest = s@.subrange(i as int, s@.len() as int);
        assert(rest[0] == s@[i as int]);
        assert(rest.drop_first() =~= s@.subrange(i + 1, s@.len() as int));
        match digit_of(s[i], radix) {
            None => {
                return Err(IntErrorKind::InvalidDigit);
            },
            Some(d) => {
                let ghost acc_n = acc as nat;
                assert(acc as u128 * radix as u128 <= u64::MAX as u128 * 36) by (nonlinear_arith)
                    requires
                        acc <= u64::MAX,
                        radix <= 36,
                ;
                let next: u128 = acc as u128 * radix as u128 + d as u128;
                assert(next == acc_n * (radix as nat) + d);
                if next > max as u128 {
                    return Err(IntErrorKind::PosOverflow);
                }
                acc = next as u64;
            },
        }
        i = i + 1;
    }
    assert(s@.subrange(i as int, s@.len() as int) =~= Seq::<u8>::empty());
    Ok(acc)
}

/// Parses a string as an unsigned integer in `radix` bounded by `max`.
pub fn parse_uint_str(s: &str, radix: u32, max: u64) -> (r: Result<u64, IntErrorKind>)
    requires
        2 <= radix <= 36,
    ensures
        match r {
            Ok(v) => parse_uint(s.spec_bytes(), radix as nat, max as nat) == Ok::<
                nat,
                IntErrorKind,
            >(v as nat),
            Err(e) => parse_uint(s.spec_bytes(), radix as nat, max as nat) == Err::<
                nat,
                IntErrorKind,
            >(e),
        },
{
    parse_uint_bytes(s.as_bytes(), radix, max)
}

// ---------------------------------------------------------------------
// Decimal rendering

/// The decimal digits of `n`, most significant first, without padding.
pub open spec fn decimal(n: nat) -> Seq<u8>
    decreases n,
{
    if n < 10 {
        seq![(48 + n) as u8]
    } else {
        decimal(n / 10).push((48 + n % 10) as u8)
    }
}

/// `n` in decimal, left-padded with `0` to at least `width` digits.
pub open spec fn padded_decimal(n: nat, width: nat) -> Seq<u8> {
    let d = decimal(n);
    Seq::new((if width > d.len() { width - d.len() } else { 0 }) as nat, |i: int| 48u8) + d
}

pub proof fn lemma_decimal_len(n: nat)
    ensures
        1 <= decimal(n).len(),
        n < 10 ==> decimal(n).len() == 1,
        10 <= n < 100 ==> decimal(n).len() == 2,
        100 <= n < 1000 ==> decimal(n).len() == 3,
        1000 <= n < 10000 ==> decimal(n).len() == 4,
    decreases n,
{
    if n >= 10 {
        lemma_decimal_len(n / 10);
    }
}

pub open spec fn pow10(k: nat) -> nat
    decreases k,
{
    if k == 0 {
        1
    } else {
        10 * pow10((k - 1) as nat)
    }
}

pub proof fn lemma_decimal_len_bound(n: nat, k: nat)
    requires
        k >= 1,
        n < pow10(k),
    ensures
        decimal(n).len() <= k,
    decreases n,
{
    if n >= 10 {
        assert(k >= 2) by {
            if k == 1 {
                reveal_with_fuel(pow10, 2);
            }
        }
        assert(n / 10 < pow10((k - 1) as nat)) by (nonlinear_arith)
            requires
                n < 10 * pow10((k - 1) as nat),
        ;
        lemma_decimal_len_bound(n / 10, (k - 1) as nat);
    }
}

pub proof fn lemma_decimal_len_u64(n: u64)
    ensures
        decimal(n as nat).len() <= 20,
{
    reveal_with_fuel(pow10, 21);
    assert(pow10(20) == 100000000000000000000);
    lemma_decimal_len_bound(n as nat, 20);
}

/// The digits of a number are ASCII digits.
pub proof fn lemma_decimal_digits(n: nat)
    ensures
        forall|i: int| 0 <= i < decimal(n).len() ==> 48 <= #[trigger] decimal(n)[i] <= 57,
    decreases n,
{
    if n >= 10 {
        lemma_decimal_digits(n / 10);
        let d = decimal(n / 10);
        assert forall|i: int| 0 <= i < decimal(n).len() implies 48 <= #[trigger] decimal(n)[i] <= 57 by {
            if i < d.len() {
                assert(decimal(n)[i] == d[i]);
            }
        }
    }
}

/// Every byte is ASCII.
pub open spec fn all_ascii(s: Seq<u8>) -> bool {
    forall|i: int| 0 <= i < s.len() ==> #[trigger] s[i] < 0x80
}

/// Joining ASCII byte strings gives an ASCII byte string.
pub proof fn lemma_ascii_concat()
    ensures
        forall|a: Seq<u8>, b: Seq<u8>| all_ascii(a) && all_ascii(b) ==> #[trigger] all_ascii(a + b),
{
    assert forall|a: Seq<u8>, b: Seq<u8>| all_ascii(a) && all_ascii(b) implies #[trigger] all_ascii(a + b) by {
        assert forall|i: int| 0 <= i < (a + b).len() implies #[trigger] (a + b)[i] < 0x80 by {
            if i < a.len() {
                assert((a + b)[i] == a[i]);
            } else {
                assert((a + b)[i] == b[i - a.len()]);
            }
        }
    }
}

/// ASCII bytes are valid UTF-8.
pub proof fn lemma_ascii_valid(bs: Seq<u8>)
    requires
        all_ascii(bs),
    ensures
        valid_utf8(bs),
    decreases bs.len(),
{
    if bs.len() > 0 {
        let b = bs[0];
        assert(b < 0x80);
        assert((b & 0x7F) as u32 == b as u32) by (bit_vector)
            requires
                b < 0x80,
        ;
        let rest = bs.subrange(1, bs.len() as int);
        assert(pop_first_scalar(bs) =~= rest);
        assert(all_ascii(rest)) by {
            assert forall|i: int| 0 <= i < rest.len() implies #[trigger] rest[i] < 0x80 by {
                assert(rest[i] == bs[i + 1]);
            }
        }
        lemma_ascii_valid(rest);
    }
}

/// A string made of ASCII bytes.
pub fn ascii_string(v: Vec<u8>) -> (r: String)
    requires
        all_ascii(v@),
    ensures
        str_bytes(r@) == v@,
{
    proof {
        lemma_ascii_valid(v@);
    }
    match str_from_utf8(v.as_slice()) {
        Ok(s) => to_owned_string(s),
        Err(_) => String::new(),
    }
}

/// Appends the decimal digits of `n` to `v`.
pub fn push_decimal(v: &mut Vec<u8>, n: u64)
    ensures
        final(v)@ == old(v)@ + decimal(n as nat),
    decreases n,
{
    if n >= 10 {
        push_decimal(v, n / 10);
    }
    let digit: u8 = (n % 10) as u8;
    v.push(48 + digit);
    proof {
        if n >= 10 {
            assert(decimal(n as nat) == decimal((n / 10) as nat).push((48 + n % 10) as u8));
        }
    }
    assert(final(v)@ =~= old(v)@ + decimal(n as nat)) by {
        assert(decimal(n as nat).last() == (48 + n % 10) as u8);
    }
}

/// Number of decimal digits of `n`.
pub fn decimal_width(n: u64) -> (r: usize)
    ensures
        r == decimal(n as nat).len(),
    decreases n,
{
    if n < 10 {
        1
    } else {
        let w = decimal_width(n / 10);
        proof {
            lemma_decimal_len_u64(n / 10);
        }
        w + 1
    }
}

pub proof fn lemma_padded_ascii(n: nat, width: nat)
    ensures
        all_ascii(padded_decimal(n, width)),
{
    lemma_decimal_digits(n);
    let d = decimal(n);
    let z = Seq::new((if width > d.len() { width - d.len() } else { 0 }) as nat, |i: int| 48u8);
    assert forall|i: int| 0 <= i < padded_decimal(n, width).len() implies #[trigger] padded_decimal(n, width)[i] < 0x80 by {
        if i >= z.len() {
            assert(padded_decimal(n, width)[i] == d[i - z.len()]);
        }
    }
}

/// Appends `n` in decimal, zero-padded to at least `width` digits.
pub fn push_padded(v: &mut Vec<u8>, n: u64, width: usize)
    ensures
        final(v)@ == old(v)@ + padded_decimal(n as nat, width as nat),
{
    let ghost start = v@;
    let w = decimal_width(n);
    let mut k: usize = w;
    while k < width
        invariant
            w <= k,
            k <= width || k == w,
            v@ == start + Seq::new((k - w) as nat, |i: int| 48u8),
        decreases width - k,
    {
        v.push(48);
        k = k + 1;
        assert(v@ =~= start + Seq::new((k - w) as nat, |i: int| 48u8));
    }
    let ghost zeros = v@;
    push_decimal(v, n);
    assert(v@ =~= start + padded_decimal(n as nat, width as nat));
}

// ---------------------------------------------------------------------
// Conversions accepted where text or a body is expected

/// Values that can become an owned string.
pub trait IntoText {
    /// The characters the value stands for.
    spec fn text_view(&self) -> Seq<char>;

    fn into_text(self) -> (r: String)
        ensures
            r@ == self.text_view(),
    ;
}

impl IntoText for String {
    open spec fn text_view(&self) -> Seq<char> {
        self@
    }

    fn into_text(self) -> (r: String) {
        self
    }
}

impl<'b> IntoText for &'b str {
    open spec fn text_view(&self) -> Seq<char> {
        self@
    }

    fn into_text(self) -> (r: String) {
        self.to_owned()
    }
}

/// Values that can become the bytes of a body.
pub trait IntoBody {
    /// The bytes the value stands for.
    spec fn body_view(&self) -> Seq<u8>;

    fn into_body(self) -> (r: Vec<u8>)
        ensures
            r@ == self.body_view(),
    ;
}

impl IntoBody for Vec<u8> {
    open spec fn body_view(&self) -> Seq<u8> {
        self@
    }

    fn into_body(self) -> (r: Vec<u8>) {
        self
    }
}

impl<'b> IntoBody for &'b [u8] {
    open spec fn body_view(&self) -> Seq<u8> {
        self@
    }

    fn into_body(self) -> (r: Vec<u8>) {
        bytes_to_vec(self)
    }
}

impl<'b, const N: usize> IntoBody for &'b [u8; N] {
    open spec fn body_view(&self) -> Seq<u8> {
        self@
    }

    fn into_body(self) -> (r: Vec<u8>) {
        bytes_to_vec(self.as_slice())
    }
}

impl<'b> IntoBody for &'b str {
    open spec fn body_view(&self) -> Seq<u8> {
        self.spec_bytes()
    }

    fn into_body(self) -> (r: Vec<u8>) {
        bytes_to_vec(self.as_bytes())
    }
}

impl IntoBody for String {
    open spec fn body_view(&self) -> Seq<u8> {
        str_bytes(self@)
    }

    fn into_body(self) -> (r: Vec<u8>) {
        bytes_to_vec(self.as_str().as_bytes())
    }
}

} // verus!
