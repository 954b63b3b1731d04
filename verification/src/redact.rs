//! Best-effort masking of credential-carrying HTTP/1 header values.
//!
//! The input is cut into lines after each `'\n'`. Until the first line whose
//! body (the line without its `"\r\n"` or `"\n"` ending) is empty, every line
//! with a `':'` is a header line. A header whose trimmed name equals one of
//! `Authorization`, `Proxy-Authorization`, `Cookie` or `Set-Cookie`, ignoring
//! ASCII case, keeps its name and colon and gets `" [REDACTED]"` in place of
//! its value. Every other line, and everything after the header section, is
//! copied unchanged.
use vstd::prelude::*;
use crate::text::{
    chars_of, find_first, lemma_find_first, lemma_find_first_at, push_all, push_range,
    string_from_chars,
};

verus! {

/// Length of the first line of `s`, its `'\n'` included.
pub open spec fn line_len(s: Seq<char>) -> int {
    match find_first(s, '\n') {
        Some(i) => i + 1,
        None => s.len() as int,
    }
}

pub proof fn lemma_line_len_bounds(s: Seq<char>)
    requires
        s.len() > 0,
    ensures
        0 < line_len(s) <= s.len(),
{
    lemma_find_first(s, '\n');
}

/// A line cut into its body and its ending (`"\r\n"`, `"\n"` or nothing).
pub open spec fn split_ending(line: Seq<char>) -> (Seq<char>, Seq<char>) {
    let n = line.len() as int;
    if n >= 2 && line[n - 2] == '\r' && line[n - 1] == '\n' {
        (line.take(n - 2), line.skip(n - 2))
    } else if n >= 1 && line[n - 1] == '\n' {
        (line.take(n - 1), line.skip(n - 1))
    } else {
        (line, Seq::empty())
    }
}

/// The characters that carry Unicode's White_Space property.
pub open spec fn is_white_space(c: char) -> bool {
    let u = c as u32;
    ||| 0x09 <= u <= 0x0d
    ||| u == 0x20
    ||| u == 0x85
    ||| u == 0xa0
    ||| u == 0x1680
    ||| 0x2000 <= u <= 0x200a
    ||| u == 0x2028
    ||| u == 0x2029
    ||| u == 0x202f
    ||| u == 0x205f
    ||| u == 0x3000
}

pub open spec fn trim_start(s: Seq<char>) -> Seq<char>
    decreases s.len(),
{
    if s.len() > 0 && is_white_space(s[0]) {
        trim_start(s.drop_first())
    } else {
        s
    }
}

pub open spec fn trim_end(s: Seq<char>) -> Seq<char>
    decreases s.len(),
{
    if s.len() > 0 && is_white_space(s.last()) {
        trim_end(s.drop_last())
    } else {
        s
    }
}

/// `s` without leading and trailing white space.
pub open spec fn trim(s: Seq<char>) -> Seq<char> {
    trim_end(trim_start(s))
}

/// The code point of `c` with ASCII upper-case letters mapped to lower case.
pub open spec fn ascii_lower(c: char) -> u32 {
    let u = c as u32;
    if 0x41 <= u <= 0x5a {
        (u + 32) as u32
    } else {
        u
    }
}

pub open spec fn eq_ignore_ascii_case(a: Seq<char>, b: Seq<char>) -> bool {
    &&& a.len() == b.len()
    &&& forall|i: int| 0 <= i < a.len() ==> ascii_lower(#[trigger] a[i]) == ascii_lower(b[i])
}

pub open spec fn authorization_name() -> Seq<char> {
    seq!['a', 'u', 't', 'h', 'o', 'r', 'i', 'z', 'a', 't', 'i', 'o', 'n']
}

pub open spec fn proxy_authorization_name() -> Seq<char> {
    seq![
        'p', 'r', 'o', 'x', 'y', '-', 'a', 'u', 't', 'h', 'o', 'r', 'i', 'z', 'a', 't', 'i', 'o', 'n',
    ]
}

pub open spec fn cookie_name() -> Seq<char> {
    seq!['c', 'o', 'o', 'k', 'i', 'e']
}

pub open spec fn set_cookie_name() -> Seq<char> {
    seq!['s', 'e', 't', '-', 'c', 'o', 'o', 'k', 'i', 'e']
}

/// Header names whose values are masked.
#[verifier::opaque]
pub open spec fn is_sensitive_name(name: Seq<char>) -> bool {
    ||| eq_ignore_ascii_case(name, authorization_name())
    ||| eq_ignore_ascii_case(name, proxy_authorization_name())
    ||| eq_ignore_ascii_case(name, cookie_name())
    ||| eq_ignore_ascii_case(name, set_cookie_name())
}

/// What stands in place of a masked value.
pub open spec fn redacted_marker() -> Seq<char> {
    seq![' ', '[', 'R', 'E', 'D', 'A', 'C', 'T', 'E', 'D', ']']
}

/// One line of output, and whether the header section goes on after it.
pub open spec fn redact_line(line: Seq<char>, in_headers: bool) -> (Seq<char>, bool) {
    let (body, ending) = split_ending(line);
    if !(in_headers && body.len() > 0) {
        (body + ending, false)
    } else {
        match find_first(body, ':') {
            None => (body + ending, true),
            Some(colon) => if is_sensitive_name(trim(body.take(colon))) {
                (body.take(colon + 1) + redacted_marker() + ending, true)
            } else {
                (body + ending, true)
            },
        }
    }
}

/// The output for `s`, given whether `s` starts inside the header section.
pub open spec fn redact_from(s: Seq<char>, in_headers: bool) -> Seq<char>
    decreases s.len(),
{
    if s.len() == 0 {
        Seq::empty()
    } else {
        proof {
            lemma_line_len_bounds(s);
        }
        let n = line_len(s);
        let (out, next) = redact_line(s.take(n), in_headers);
        out + redact_from(s.skip(n), next)
    }
}

/// The masked text for `input`.
pub open spec fn redact_spec(input: Seq<char>) -> Seq<char> {
    redact_from(input, true)
}

pub proof fn lemma_split_ending_joins(line: Seq<char>)
    ensures
        split_ending(line).0 + split_ending(line).1 == line,
{
    let (b, e) = split_ending(line);
    assert(b + e =~= line);
}

proof fn lemma_trim_start_at(s: Seq<char>, k: int)
    requires
        0 <= k <= s.len(),
        forall|j: int| 0 <= j < k ==> is_white_space(#[trigger] s[j]),
        k == s.len() || !is_white_space(s[k]),
    ensures
        trim_start(s) == s.skip(k),
    decreases k,
{
    if k == 0 {
        assert(s.skip(0) =~= s);
    } else {
        let t = s.drop_first();
        assert forall|j: int| 0 <= j < k - 1 implies is_white_space(#[trigger] t[j]) by {
            assert(t[j] == s[j + 1]);
        }
        assert(k - 1 == t.len() || t[k - 1] == s[k]);
        lemma_trim_start_at(t, k - 1);
        assert(t.skip(k - 1) =~= s.skip(k));
    }
}

proof fn lemma_trim_end_at(s: Seq<char>, k: int)
    requires
        0 <= k <= s.len(),
        forall|j: int| k <= j < s.len() ==> is_white_space(#[trigger] s[j]),
        k == 0 || !is_white_space(s[k - 1]),
    ensures
        trim_end(s) == s.take(k),
    decreases s.len() - k,
{
    if k == s.len() {
        assert(s.take(k) =~= s);
    } else {
        let t = s.drop_last();
        assert(is_white_space(s[s.len() - 1]));
        assert forall|j: int| k <= j < t.len() implies is_white_space(#[trigger] t[j]) by {
            assert(t[j] == s[j]);
        }
        lemma_trim_end_at(t, k);
        assert(t.take(k) =~= s.take(k));
    }
}

/// Exec counterpart of `is_white_space`.
fn white_space(c: char) -> (r: bool)
    ensures
        r == is_white_space(c),
{
    let u = c as u32;
    (0x09 <= u && u <= 0x0d) || u == 0x20 || u == 0x85 || u == 0xa0 || u == 0x1680 || (0x2000
        <= u && u <= 0x200a) || u == 0x2028 || u == 0x2029 || u == 0x202f || u == 0x205f || u
        == 0x3000
}

fn to_ascii_lower(c: char) -> (r: u32)
    ensures
        r == ascii_lower(c),
{
    let u = c as u32;
    if 0x41 <= u && u <= 0x5a {
        u + 32
    } else {
        u
    }
}

/// Whether `v[lo..hi]` equals `name`, ignoring ASCII case.
fn range_eq_ignore_ascii_case(v: &Vec<char>, lo: usize, hi: usize, name: &[char]) -> (r: bool)
    requires
        lo <= hi <= v@.len(),
    ensures
        r == eq_ignore_ascii_case(v@.subrange(lo as int, hi as int), name@),
{
    if hi - lo != name.len() {
        return false;
    }
    let n = name.len();
    let mut i: usize = 0;
    while i < n
        invariant
            i <= n,
            n == name@.len(),
            hi - lo == n,
            lo <= hi <= v@.len(),
            forall|j: int|
                0 <= j < i ==> ascii_lower(#[trigger] v@[lo + j]) == ascii_lower(name@[j]),
        decreases n - i,
    {
        if to_ascii_lower(v[lo + i]) != to_ascii_lower(name[i]) {
            assert(v@.subrange(lo as int, hi as int)[i as int] == v@[lo + i]);
            return false;
        }
        i = i + 1;
    }
    assert forall|j: int| 0 <= j < n implies ascii_lower(
        #[trigger] v@.subrange(lo as int, hi as int)[j],
    ) == ascii_lower(name@[j]) by {
        assert(v@.subrange(lo as int, hi as int)[j] == v@[lo + j]);
    }
    true
}

fn sensitive_name(v: &Vec<char>, lo: usize, hi: usize) -> (r: bool)
    requires
        lo <= hi <= v@.len(),
    ensures
        r == is_sensitive_name(v@.subrange(lo as int, hi as int)),
{
    let authorization: [char; 13] = ['a', 'u', 't', 'h', 'o', 'r', 'i', 'z', 'a', 't', 'i', 'o', 'n'];
    let proxy_authorization: [char; 19] = [
        'p', 'r', 'o', 'x', 'y', '-', 'a', 'u', 't', 'h', 'o', 'r', 'i', 'z', 'a', 't', 'i', 'o', 'n',
    ];
    let cookie: [char; 6] = ['c', 'o', 'o', 'k', 'i', 'e'];
    let set_cookie: [char; 10] = ['s', 'e', 't', '-', 'c', 'o', 'o', 'k', 'i', 'e'];
    proof {
        reveal(is_sensitive_name);
    }
    assert(authorization@ =~= authorization_name());
    assert(proxy_authorization@ =~= proxy_authorization_name());
    assert(cookie@ =~= cookie_name());
    assert(set_cookie@ =~= set_cookie_name());
    range_eq_ignore_ascii_case(v, lo, hi, authorization.as_slice())
        || range_eq_ignore_ascii_case(v, lo, hi, proxy_authorization.as_slice())
        || range_eq_ignore_ascii_case(v, lo, hi, cookie.as_slice())
        || range_eq_ignore_ascii_case(v, lo, hi, set_cookie.as_slice())
}

/// Index of the first `c` in `v[lo..hi]`, or `hi` when there is none.
fn find_in_range(v: &Vec<char>, lo: usize, hi: usize, c: char) -> (r: usize)
    requires
        lo <= hi <= v@.len(),
    ensures
        lo <= r <= hi,
        find_first(v@.subrange(lo as int, hi as int), c) == (if r == hi {
            None
        } else {
            Some(r - lo)
        }),
{
    let mut k = lo;
    while k < hi && v[k] != c
        invariant
            lo <= k <= hi,
            hi <= v@.len(),
            forall|j: int| lo <= j < k ==> v@[j] != c,
        decreases hi - k,
    {
        k = k + 1;
    }
    proof {
        let s = v@.subrange(lo as int, hi as int);
        assert forall|j: int| 0 <= j < k - lo implies s[j] != c by {
            assert(s[j] == v@[lo + j]);
        }
        if k < hi {
            assert(s[k - lo] == v@[k as int]);
        }
        lemma_find_first_at(s, c, k - lo);
    }
    k
}

/// Bounds of `v[lo..hi]` with leading and trailing white space removed.
fn trim_range(v: &Vec<char>, lo: usize, hi: usize) -> (r: (usize, usize))
    requires
        lo <= hi <= v@.len(),
    ensures
        lo <= r.0 <= r.1 <= hi,
        trim(v@.subrange(lo as int, hi as int)) == v@.subrange(r.0 as int, r.1 as int),
{
    let mut a = lo;
    while a < hi && white_space(v[a])
        invariant
            lo <= a <= hi,
            hi <= v@.len(),
            forall|j: int| lo <= j < a ==> is_white_space(#[trigger] v@[j]),
        decreases hi - a,
    {
        a = a + 1;
    }
    let mut b = hi;
    while b > a && white_space(v[b - 1])
        invariant
            a <= b <= hi,
            hi <= v@.len(),
            forall|j: int| b <= j < hi ==> is_white_space(#[trigger] v@[j]),
        decreases b - a,
    {
        b = b - 1;
    }
    proof {
        let name = v@.subrange(lo as int, hi as int);
        assert forall|j: int| 0 <= j < a - lo implies is_white_space(#[trigger] name[j]) by {
            assert(name[j] == v@[lo + j]);
        }
        if a < hi {
            assert(name[a - lo] == v@[a as int]);
        }
        lemma_trim_start_at(name, a - lo);
        let t = name.skip(a - lo);
        assert(t =~= v@.subrange(a as int, hi as int));
        assert forall|j: int| b - a <= j < t.len() implies is_white_space(#[trigger] t[j]) by {
            assert(t[j] == v@[a + j]);
        }
        if b > a {
            assert(t[b - a - 1] == v@[b - 1]);
        }
        lemma_trim_end_at(t, b - a);
        assert(t.take(b - a) =~= v@.subrange(a as int, b as int));
    }
    (a, b)
}

/// Where the ending of the line `v[start..end]` begins.
fn ending_start(v: &Vec<char>, start: usize, end: usize) -> (r: usize)
    requires
        start < end <= v@.len(),
    ensures
        start <= r <= end,
        split_ending(v@.subrange(start as int, end as int)).0 == v@.subrange(
            start as int,
            r as int,
        ),
        split_ending(v@.subrange(start as int, end as int)).1 == v@.subrange(r as int, end as int),
{
    let r = if end - start >= 2 && v[end - 2] == '\r' && v[end - 1] == '\n' {
        end - 2
    } else if v[end - 1] == '\n' {
        end - 1
    } else {
        end
    };
    let ghost line = v@.subrange(start as int, end as int);
    assert(split_ending(line).0 =~= v@.subrange(start as int, r as int));
    assert(split_ending(line).1 =~= v@.subrange(r as int, end as int));
    r
}

/// Appends the output for the line `v[start..end]` to `out`.
fn redact_line_into(
    v: &Vec<char>,
    start: usize,
    end: usize,
    in_headers: bool,
    out: &mut Vec<char>,
) -> (still_in_headers: bool)
    requires
        start < end <= v@.len(),
    ensures
        ({
            let (text, next) = redact_line(v@.subrange(start as int, end as int), in_headers);
            final(out)@ == old(out)@ + text && still_in_headers == next
        }),
{
    let ghost line = v@.subrange(start as int, end as int);
    let body_end = ending_start(v, start, end);
    let ghost body = split_ending(line).0;
    proof {
        lemma_split_ending_joins(line);
    }
    if !(in_headers && body_end > start) {
        push_range(out, v, start, end);
        return false;
    }
    let colon = find_in_range(v, start, body_end, ':');
    if colon == body_end {
        push_range(out, v, start, end);
        return true;
    }
    assert(body.take(colon - start) =~= v@.subrange(start as int, colon as int));
    let (lo, hi) = trim_range(v, start, colon);
    if sensitive_name(v, lo, hi) {
        let marker: [char; 11] = [' ', '[', 'R', 'E', 'D', 'A', 'C', 'T', 'E', 'D', ']'];
        assert(marker@ =~= redacted_marker());
        push_range(out, v, start, colon + 1);
        push_all(out, marker.as_slice());
        push_range(out, v, body_end, end);
        assert(body.take(colon - start + 1) =~= v@.subrange(start as int, colon + 1));
    } else {
        push_range(out, v, start, end);
    }
    true
}

/// Masks the values of sensitive HTTP header lines in `input`.
pub fn redact_http_headers(input: &str) -> (r: String)
    ensures
        r@ == redact_spec(input@),
{
    let v = chars_of(input);
    let n = v.len();
    let mut out: Vec<char> = Vec::new();
    let mut in_headers = true;
    let mut pos: usize = 0;
    assert(v@.skip(0) =~= v@);
    while pos < n
        invariant
            pos <= n,
            n == v@.len(),
            v@ == input@,
            redact_spec(input@) == out@ + redact_from(v@.skip(pos as int), in_headers),
        decreases n - pos,
    {
        let mut k = pos;
        while k < n && v[k] != '\n'
            invariant
                pos <= k <= n,
                n == v@.len(),
                forall|j: int| pos <= j < k ==> v@[j] != '\n',
            decreases n - k,
        {
            k = k + 1;
        }
        let end = if k < n {
            k + 1
        } else {
            k
        };
        let ghost rest = v@.skip(pos as int);
        proof {
            assert forall|j: int| 0 <= j < k - pos implies rest[j] != '\n' by {
                assert(rest[j] == v@[pos + j]);
            }
            if k < n {
                assert(rest[k - pos] == v@[k as int]);
            }
            lemma_find_first_at(rest, '\n', k - pos);
            assert(line_len(rest) == end - pos);
            assert(rest.take(end - pos) =~= v@.subrange(pos as int, end as int));
            assert(rest.skip(end - pos) =~= v@.skip(end as int));
        }
        in_headers = redact_line_into(&v, pos, end, in_headers, &mut out);
        pos = end;
    }
    string_from_chars(&out)
}


/// Outside the header section a line is copied as it is.
proof fn lemma_plain_line(line: Seq<char>)
    ensures
        redact_line(line, false) == (line, false),
{
    lemma_split_ending_joins(line);
}

/// Once the header section has ended, every line is copied unchanged: the
/// message body is never modified.
#[verifier::spinoff_prover]
pub proof fn lemma_body_is_unchanged(s: Seq<char>)
    ensures
        redact_from(s, false) == s,
    decreases s.len(),
{
    if s.len() > 0 {
        lemma_line_len_bounds(s);
        let n = line_len(s);
        lemma_plain_line(s.take(n));
        lemma_body_is_unchanged(s.skip(n));
        assert(s.take(n) + s.skip(n) =~= s);
    }
}


/// A non-empty text whose only possible `'\n'` is its last character.
pub open spec fn is_single_line(l: Seq<char>) -> bool {
    &&& l.len() > 0
    &&& forall|i: int| 0 <= i < l.len() - 1 ==> l[i] != '\n'
}

proof fn lemma_first_line_shape(s: Seq<char>)
    requires
        s.len() > 0,
    ensures
        is_single_line(s.take(line_len(s))),
        line_len(s) < s.len() ==> s[line_len(s) - 1] == '\n',
{
    lemma_find_first(s, '\n');
    lemma_line_len_bounds(s);
    let n = line_len(s);
    assert forall|i: int| 0 <= i < n - 1 implies s.take(n)[i] != '\n' by {
        assert(s.take(n)[i] == s[i]);
    }
}

proof fn lemma_line_len_of_concat(a: Seq<char>, b: Seq<char>)
    requires
        is_single_line(a),
        a.last() == '\n' || b.len() == 0,
    ensures
        line_len(a + b) == a.len(),
        (a + b).take(a.len() as int) == a,
        (a + b).skip(a.len() as int) == b,
{
    let s = a + b;
    assert forall|j: int| 0 <= j < a.len() - 1 implies s[j] != '\n' by {
        assert(s[j] == a[j]);
    }
    if a.last() == '\n' {
        assert(s[a.len() - 1] == '\n');
        lemma_find_first_at(s, '\n', a.len() - 1);
    } else {
        assert(s =~= a);
        lemma_find_first_at(s, '\n', a.len() as int);
    }
    assert(s.take(a.len() as int) =~= a);
    assert(s.skip(a.len() as int) =~= b);
}

/// A line ending is empty, `"\n"` or `"\r\n"`.
proof fn lemma_ending_shape(line: Seq<char>)
    ensures
        ({
            let e = split_ending(line).1;
            e.len() == 0 || e == seq!['\n'] || e == seq!['\r', '\n']
        }),
{
    let e = split_ending(line).1;
    if e.len() == 2 {
        assert(e =~= seq!['\r', '\n']);
    } else if e.len() == 1 {
        assert(e =~= seq!['\n']);
    }
}

/// The body of a single line holds no `'\n'`, and is the start of the line.
proof fn lemma_body_of_single_line(line: Seq<char>)
    requires
        is_single_line(line),
    ensures
        forall|i: int|
            0 <= i < split_ending(line).0.len() ==> #[trigger] split_ending(line).0[i] == line[i]
                && line[i] != '\n',
{
    let body = split_ending(line).0;
    assert forall|i: int| 0 <= i < body.len() implies #[trigger] body[i] == line[i] && line[i]
        != '\n' by {
        assert(body[i] == line[i]);
    }
}

/// A text that ends in `']'` keeps an ending appended to it as its ending.
proof fn lemma_split_after_marker(head: Seq<char>, ending: Seq<char>)
    requires
        head.len() > 0,
        head.last() == ']',
        ending.len() == 0 || ending == seq!['\n'] || ending == seq!['\r', '\n'],
    ensures
        split_ending(head + ending) == (head, ending),
{
    let out = head + ending;
    if ending.len() == 2 {
        assert(out[out.len() - 2] == '\r' && out[out.len() - 1] == '\n');
    } else if ending.len() == 1 {
        assert(out[out.len() - 2] == ']');
        assert(out[out.len() - 1] == '\n');
    } else {
        assert(out.last() == ']');
    }
    assert(split_ending(out).0 =~= head);
    assert(split_ending(out).1 =~= ending);
}

/// The masked form of a body whose first `':'` is at `colon`: the body up to
/// and including that colon, then the marker.
proof fn lemma_masked_head(body: Seq<char>, colon: int)
    requires
        find_first(body, ':') == Some(colon),
    ensures
        ({
            let head = body.take(colon + 1) + redacted_marker();
            &&& head.len() > 0
            &&& head.last() == ']'
            &&& find_first(head, ':') == Some(colon)
            &&& head.take(colon) == body.take(colon)
            &&& head.take(colon + 1) == body.take(colon + 1)
            &&& (forall|i: int| 0 <= i < body.len() ==> body[i] != '\n') ==> (forall|i: int|
                0 <= i < head.len() ==> #[trigger] head[i] != '\n')
        }),
{
    lemma_find_first(body, ':');
    let head = body.take(colon + 1) + redacted_marker();
    assert forall|j: int| 0 <= j < colon implies head[j] != ':' by {
        assert(head[j] == body[j]);
    }
    assert(head[colon] == ':');
    lemma_find_first_at(head, ':', colon);
    assert(head.take(colon) =~= body.take(colon));
    assert(head.take(colon + 1) =~= body.take(colon + 1));
    if forall|i: int| 0 <= i < body.len() ==> body[i] != '\n' {
        assert forall|i: int| 0 <= i < head.len() implies #[trigger] head[i] != '\n' by {
            if i <= colon {
                assert(head[i] == body[i]);
            } else {
                assert(head[i] == redacted_marker()[i - colon - 1]);
            }
        }
    }
}

/// A redacted line is still one line, with the same ending, and redacting it
/// again gives it back.
#[verifier::spinoff_prover]
proof fn lemma_redacted_line(line: Seq<char>, in_headers: bool)
    requires
        is_single_line(line),
    ensures
        is_single_line(redact_line(line, in_headers).0),
        redact_line(line, in_headers).0.last() == '\n' <==> line.last() == '\n',
        redact_line(redact_line(line, in_headers).0, in_headers) == redact_line(line, in_headers),
{
    let (body, ending) = split_ending(line);
    lemma_split_ending_joins(line);
    if in_headers && body.len() > 0 {
        if let Some(colon) = find_first(body, ':') {
            if is_sensitive_name(trim(body.take(colon))) {
                let head = body.take(colon + 1) + redacted_marker();
                let out = head + ending;
                assert(redact_line(line, in_headers).0 == out);
                lemma_body_of_single_line(line);
                lemma_masked_head(body, colon);
                lemma_ending_shape(line);
                lemma_split_after_marker(head, ending);
                assert forall|i: int| 0 <= i < out.len() - 1 implies out[i] != '\n' by {
                    if i < head.len() {
                        assert(out[i] == head[i]);
                    } else {
                        assert(out[i] == ending[i - head.len()]);
                    }
                }
                if ending.len() > 0 {
                    assert(out.last() == ending.last());
                    assert(line.last() == ending.last());
                } else {
                    assert(out.last() == ']');
                    assert(line =~= body);
                }
            }
        }
    }
}

proof fn lemma_redact_from_idempotent(s: Seq<char>, in_headers: bool)
    ensures
        redact_from(redact_from(s, in_headers), in_headers) == redact_from(s, in_headers),
    decreases s.len(),
{
    if s.len() > 0 {
        lemma_line_len_bounds(s);
        lemma_first_line_shape(s);
        let n = line_len(s);
        let line = s.take(n);
        let (out, next) = redact_line(line, in_headers);
        let rest = s.skip(n);
        lemma_redact_from_idempotent(rest, next);
        let tail = redact_from(rest, next);
        lemma_redacted_line(line, in_headers);
        if line.last() != '\n' {
            assert(n == s.len());
            assert(rest.len() == 0);
        }
        lemma_line_len_of_concat(out, tail);
        assert(redact_from(s, in_headers) == out + tail);
    }
}

/// Redacting text that is already redacted changes nothing.
pub proof fn lemma_redaction_is_idempotent(input: Seq<char>)
    ensures
        redact_spec(redact_spec(input)) == redact_spec(input),
{
    lemma_redact_from_idempotent(input, true);
}


/// The lines of `s` as `str::split_inclusive('\n')` gives them.
pub open spec fn lines(s: Seq<char>) -> Seq<Seq<char>>
    decreases s.len(),
{
    if s.len() == 0 {
        Seq::empty()
    } else {
        proof {
            lemma_line_len_bounds(s);
        }
        seq![s.take(line_len(s))] + lines(s.skip(line_len(s)))
    }
}

/// No line before index `i` has empty content: the header section is still open there.
pub open spec fn headers_open(ls: Seq<Seq<char>>, i: int) -> bool {
    forall|j: int| 0 <= j < i ==> split_ending(#[trigger] ls[j]).0.len() > 0
}

/// Each line redacted, given whether the header section is open before it.
pub open spec fn redact_lines(ls: Seq<Seq<char>>, in_headers: bool) -> Seq<Seq<char>>
    decreases ls.len(),
{
    if ls.len() == 0 {
        Seq::empty()
    } else {
        let (out, next) = redact_line(ls[0], in_headers);
        seq![out] + redact_lines(ls.drop_first(), next)
    }
}

/// Redaction keeps the ending of a line, and the header section stays open
/// after a line exactly when it was open before and the line is not empty.
#[verifier::spinoff_prover]
proof fn lemma_redacted_line_ending(line: Seq<char>, in_headers: bool)
    ensures
        split_ending(redact_line(line, in_headers).0).1 == split_ending(line).1,
        redact_line(line, in_headers).1 == (in_headers && split_ending(line).0.len() > 0),
{
    let (body, ending) = split_ending(line);
    lemma_split_ending_joins(line);
    if in_headers && body.len() > 0 {
        if let Some(colon) = find_first(body, ':') {
            if is_sensitive_name(trim(body.take(colon))) {
                lemma_masked_head(body, colon);
                lemma_ending_shape(line);
                lemma_split_after_marker(body.take(colon + 1) + redacted_marker(), ending);
            }
        }
    }
}

proof fn lemma_lines_of_redacted(s: Seq<char>, in_headers: bool)
    ensures
        lines(redact_from(s, in_headers)) == redact_lines(lines(s), in_headers),
    decreases s.len(),
{
    if s.len() > 0 {
        lemma_line_len_bounds(s);
        lemma_first_line_shape(s);
        let n = line_len(s);
        let line = s.take(n);
        let (out, next) = redact_line(line, in_headers);
        let rest = s.skip(n);
        lemma_lines_of_redacted(rest, next);
        let tail = redact_from(rest, next);
        lemma_redacted_line(line, in_headers);
        if line.last() != '\n' {
            assert(n == s.len());
            assert(rest.len() == 0);
        }
        lemma_line_len_of_concat(out, tail);
        assert(redact_from(s, in_headers) == out + tail);
        let ls = lines(s);
        assert(ls[0] == line);
        assert(ls.drop_first() =~= lines(rest));
        assert(lines(out + tail) == seq![out] + lines(tail));
    } else {
        assert(lines(redact_from(s, in_headers)) =~= Seq::<Seq<char>>::empty());
    }
}

proof fn lemma_redact_lines_at(ls: Seq<Seq<char>>, in_headers: bool)
    requires
        forall|i: int| 0 <= i < ls.len() ==> is_single_line(#[trigger] ls[i]),
    ensures
        redact_lines(ls, in_headers).len() == ls.len(),
        forall|i: int|
            0 <= i < ls.len() ==> #[trigger] redact_lines(ls, in_headers)[i] == redact_line(
                ls[i],
                in_headers && headers_open(ls, i),
            ).0,
    decreases ls.len(),
{
    if ls.len() > 0 {
        let (out, next) = redact_line(ls[0], in_headers);
        let rest = ls.drop_first();
        assert forall|i: int| 0 <= i < rest.len() implies is_single_line(#[trigger] rest[i]) by {
            assert(rest[i] == ls[i + 1]);
        }
        lemma_redact_lines_at(rest, next);
        lemma_redacted_line_ending(ls[0], in_headers);
        let r = redact_lines(ls, in_headers);
        assert forall|i: int| 0 <= i < ls.len() implies #[trigger] r[i] == redact_line(
            ls[i],
            in_headers && headers_open(ls, i),
        ).0 by {
            if i > 0 {
                assert(r[i] == redact_lines(rest, next)[i - 1]);
                assert(rest[i - 1] == ls[i]);
                assert((in_headers && headers_open(ls, i)) == (next && headers_open(rest, i - 1)))
                    by {
                    if next && headers_open(rest, i - 1) {
                        assert forall|j: int| 0 <= j < i implies split_ending(
                            #[trigger] ls[j],
                        ).0.len() > 0 by {
                            if j > 0 {
                                assert(ls[j] == rest[j - 1]);
                            }
                        }
                    }
                    if in_headers && headers_open(ls, i) {
                        assert(split_ending(ls[0]).0.len() > 0);
                        assert forall|j: int| 0 <= j < i - 1 implies split_ending(
                            #[trigger] rest[j],
                        ).0.len() > 0 by {
                            assert(rest[j] == ls[j + 1]);
                        }
                    }
                }
            }
        }
    }
}

proof fn lemma_lines_are_single(s: Seq<char>)
    ensures
        forall|i: int| 0 <= i < lines(s).len() ==> is_single_line(#[trigger] lines(s)[i]),
    decreases s.len(),
{
    if s.len() > 0 {
        lemma_line_len_bounds(s);
        lemma_first_line_shape(s);
        let n = line_len(s);
        lemma_lines_are_single(s.skip(n));
        let ls = lines(s);
        assert forall|i: int| 0 <= i < ls.len() implies is_single_line(#[trigger] ls[i]) by {
            if i > 0 {
                assert(ls[i] == lines(s.skip(n))[i - 1]);
            }
        }
    }
}

/// Redaction keeps the line structure of its input: as many lines, each with
/// its own ending. A line is copied unchanged when the header section has
/// ended before it (at the first line with empty content), when its content is
/// empty, has no `':'`, or has a name before its first `':'` that is not
/// sensitive. A sensitive header line becomes its content up to and including
/// the first `':'`, then `" [REDACTED]"`, then its ending: nothing of the value
/// is kept.
pub proof fn lemma_redaction_keeps_lines(input: Seq<char>)
    ensures
        ({
            let ls = lines(input);
            let out = lines(redact_spec(input));
            &&& out.len() == ls.len()
            &&& forall|i: int|
                0 <= i < ls.len() ==> split_ending(#[trigger] out[i]).1 == split_ending(ls[i]).1
            &&& forall|i: int|
                0 <= i < ls.len() ==> {
                    let body = split_ending(ls[i]).0;
                    let ending = split_ending(ls[i]).1;
                    if headers_open(ls, i) && body.len() > 0 && find_first(body, ':') is Some
                        && is_sensitive_name(trim(body.take(find_first(body, ':')->Some_0))) {
                        #[trigger] out[i] == body.take(find_first(body, ':')->Some_0 + 1)
                            + redacted_marker() + ending
                    } else {
                        out[i] == ls[i]
                    }
                }
        }),
{
    let ls = lines(input);
    lemma_lines_of_redacted(input, true);
    lemma_lines_are_single(input);
    lemma_redact_lines_at(ls, true);
    let out = lines(redact_spec(input));
    assert forall|i: int| 0 <= i < ls.len() implies split_ending(#[trigger] out[i]).1
        == split_ending(ls[i]).1 by {
        lemma_redacted_line_ending(ls[i], headers_open(ls, i));
    }
    assert forall|i: int| 0 <= i < ls.len() implies {
        let body = split_ending(ls[i]).0;
        let ending = split_ending(ls[i]).1;
        if headers_open(ls, i) && body.len() > 0 && find_first(body, ':') is Some
            && is_sensitive_name(trim(body.take(find_first(body, ':')->Some_0))) {
            #[trigger] out[i] == body.take(find_first(body, ':')->Some_0 + 1) + redacted_marker()
                + ending
        } else {
            out[i] == ls[i]
        }
    } by {
        lemma_split_ending_joins(ls[i]);
    }
}

} // verus!
