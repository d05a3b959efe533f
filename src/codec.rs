//! The RTSP wire format: requests to bytes, and bytes to responses as they
//! arrive over a stream.
use vstd::prelude::*;
use vstd::slice::slice_to_vec;
use vstd::utf8::{decode_utf8, encode_utf8, valid_utf8};
use vstd::string::StringExecFns;
use crate::message::{Header, HeaderView, Request, RequestView, Response, ResponseView, headers_view};
use crate::number::{dec_bytes, dec_chars, dec_value, is_digit, all_digits, lemma_dec_bytes, parse_decimal, push_decimal};
use crate::text::utf8_string;

verus! {

/// The byte classes that the response grammar scans over.
pub enum Class {
    /// ASCII decimal digits.
    Digit,
    /// Space and horizontal tab.
    Space,
    /// Anything but space, CR, LF and `:`.
    NameChar,
    /// Anything but space, CR and LF.
    TextChar,
    /// Anything but CR and LF.
    ValueChar,
}

pub open spec fn in_class(c: u8, k: Class) -> bool {
    match k {
        Class::Digit => is_digit(c),
        Class::Space => c == 32 || c == 9,
        Class::NameChar => c != 32 && c != 13 && c != 10 && c != 58,
        Class::TextChar => c != 32 && c != 13 && c != 10,
        Class::ValueChar => c != 13 && c != 10,
    }
}

/// The first index at or after `i` whose byte is not in class `k`, or the length.
pub open spec fn scan(l: Seq<u8>, i: int, k: Class) -> int
    decreases l.len() - i,
{
    if i < 0 || i >= l.len() {
        l.len() as int
    } else if in_class(l[i], k) {
        scan(l, i + 1, k)
    } else {
        i
    }
}

pub proof fn lemma_scan(l: Seq<u8>, i: int, k: Class)
    requires
        0 <= i <= l.len(),
    ensures
        i <= scan(l, i, k) <= l.len(),
        forall|j: int| i <= j < scan(l, i, k) ==> in_class(#[trigger] l[j], k),
        scan(l, i, k) < l.len() ==> !in_class(l[scan(l, i, k)], k),
    decreases l.len() - i,
{
    if i < l.len() && in_class(l[i], k) {
        lemma_scan(l, i + 1, k);
    }
}

/// `RTSP/`
pub open spec fn rtsp_prefix() -> Seq<u8> {
    seq![82u8, 84u8, 83u8, 80u8, 47u8]
}

/// `Content-Length:`
pub open spec fn content_length_prefix() -> Seq<u8> {
    seq![67u8, 111u8, 110u8, 116u8, 101u8, 110u8, 116u8, 45u8, 76u8, 101u8, 110u8, 103u8, 116u8, 104u8, 58u8]
}

pub open spec fn crlf_at(b: Seq<u8>, i: int) -> bool {
    0 <= i && i + 1 < b.len() && b[i] == 13 && b[i + 1] == 10
}

/// The index of the first CR LF at or after `i`, or -1.
pub open spec fn find_crlf(b: Seq<u8>, i: int) -> int
    decreases b.len() - i,
{
    if i < 0 || i + 1 >= b.len() {
        -1
    } else if crlf_at(b, i) {
        i
    } else {
        find_crlf(b, i + 1)
    }
}

pub proof fn lemma_find_crlf(b: Seq<u8>, i: int)
    requires
        0 <= i,
    ensures
        find_crlf(b, i) < 0 ==> find_crlf(b, i) == -1,
        find_crlf(b, i) >= 0 ==> i <= find_crlf(b, i) && crlf_at(b, find_crlf(b, i)),
        find_crlf(b, i) >= 0 ==> forall|j: int| i <= j < find_crlf(b, i) ==> !crlf_at(b, j),
        find_crlf(b, i) < 0 ==> forall|j: int| i <= j ==> !crlf_at(b, j),
    decreases b.len() - i,
{
    if i + 1 < b.len() && !crlf_at(b, i) {
        lemma_find_crlf(b, i + 1);
    }
}

/// The status line `RTSP/<major>.<minor> <code> <text>`, without its CR LF.
pub open spec fn status_line(l: Seq<u8>) -> Option<(u32, u32, u32, Seq<char>)> {
    let dot = scan(l, 5, Class::Digit);
    let minor_end = scan(l, dot + 1, Class::Digit);
    let code_start = scan(l, minor_end, Class::Space);
    let code_end = scan(l, code_start, Class::Digit);
    let text_start = scan(l, code_end, Class::Space);
    let text = l.subrange(text_start, l.len() as int);
    if l.len() >= 5 && l.subrange(0, 5) == rtsp_prefix() && dot > 5 && dot < l.len() && l[dot] == 46
        && minor_end > dot + 1 && code_start > minor_end && code_end > code_start && text_start > code_end && scan(l, text_start, Class::TextChar) == l.len()
        && valid_utf8(text) && dec_value(l.subrange(5, dot)) <= u32::MAX
        && dec_value(l.subrange(dot + 1, minor_end)) <= u32::MAX && dec_value(l.subrange(code_start, code_end)) <= u32::MAX {
        Some((
            dec_value(l.subrange(5, dot)) as u32,
            dec_value(l.subrange(dot + 1, minor_end)) as u32,
            dec_value(l.subrange(code_start, code_end)) as u32,
            decode_utf8(text),
        ))
    } else {
        None
    }
}

/// A `Content-Length:` line with its decimal value.
pub open spec fn content_length_line(l: Seq<u8>) -> Option<u32> {
    let p = scan(l, 15, Class::Space);
    if l.len() >= 15 && l.subrange(0, 15) == content_length_prefix() && p > 15 && p < l.len()
        && scan(l, p, Class::Digit) == l.len() && dec_value(l.subrange(p, l.len() as int)) <= u32::MAX {
        Some(dec_value(l.subrange(p, l.len() as int)) as u32)
    } else {
        None
    }
}

/// A header line without its CR LF: `Content-Length`, else `<name>: <value>`.
pub open spec fn header_line(l: Seq<u8>) -> Option<HeaderView> {
    match content_length_line(l) {
        Some(v) => Some(HeaderView::ContentLength(v)),
        None => {
            let n = scan(l, 0, Class::NameChar);
            let v0 = scan(l, n + 1, Class::Space);
            let name = l.subrange(0, n);
            let value = l.subrange(v0, l.len() as int);
            if n < l.len() && l[n] == 58 && v0 > n + 1 && scan(l, v0, Class::ValueChar) == l.len()
                && valid_utf8(name) && valid_utf8(value) {
                Some(HeaderView::Generic(decode_utf8(name), decode_utf8(value)))
            } else {
                None
            }
        },
    }
}

/// Why a response could not be parsed.
#[derive(Debug, PartialEq, Eq, Structural)]
pub enum ParseError {
    StatusLine,
    HeaderLine,
}

/// Where the header section that starts at `pos` leads.
pub enum HeadersOutcome {
    /// The headers, and the index just past the blank line.
    Done(Seq<HeaderView>, int),
    Incomplete,
    Bad,
}

pub open spec fn headers_from(b: Seq<u8>, pos: int) -> HeadersOutcome
    decreases b.len() - pos,
{
    let e = find_crlf(b, pos);
    if pos < 0 || e < pos || e + 2 > b.len() {
        HeadersOutcome::Incomplete
    } else if e == pos {
        HeadersOutcome::Done(Seq::empty(), pos + 2)
    } else {
        match header_line(b.subrange(pos, e)) {
            None => HeadersOutcome::Bad,
            Some(h) => prepend(seq![h], headers_from(b, e + 2)),
        }
    }
}

pub open spec fn prepend(hs: Seq<HeaderView>, o: HeadersOutcome) -> HeadersOutcome {
    match o {
        HeadersOutcome::Done(t, end) => HeadersOutcome::Done(hs + t, end),
        _ => o,
    }
}

/// The value of the first `Content-Length` header, 0 if there is none.
pub open spec fn content_length(hs: Seq<HeaderView>) -> nat
    decreases hs.len(),
{
    if hs.len() == 0 {
        0
    } else {
        match hs[0] {
            HeaderView::ContentLength(v) => v as nat,
            _ => content_length(hs.drop_first()),
        }
    }
}

/// What a buffer holds at its start.
pub enum Parsed {
    /// A whole response, and the number of bytes it took.
    Complete(ResponseView, nat),
    Incomplete,
    Malformed(ParseError),
}

/// The response at the start of `b`, as far as `b` reaches.
pub open spec fn parse_response(b: Seq<u8>) -> Parsed {
    let e0 = find_crlf(b, 0);
    if e0 < 0 {
        Parsed::Incomplete
    } else {
        match status_line(b.subrange(0, e0)) {
            None => Parsed::Malformed(ParseError::StatusLine),
            Some((major, minor, code, text)) => match headers_from(b, e0 + 2) {
                HeadersOutcome::Incomplete => Parsed::Incomplete,
                HeadersOutcome::Bad => Parsed::Malformed(ParseError::HeaderLine),
                HeadersOutcome::Done(hs, end) => {
                    let n = end + content_length(hs);
                    if n > b.len() {
                        Parsed::Incomplete
                    } else {
                        Parsed::Complete(
                            ResponseView {
                                version: (major, minor),
                                status_code: code,
                                status: text,
                                headers: hs,
                                body: b.subrange(end, n),
                            },
                            n as nat,
                        )
                    }
                },
            },
        }
    }
}

/// The result of reading a response from the start of a buffer.
#[derive(Debug)]
pub enum Decoded {
    /// A whole response, and the number of bytes it took.
    Complete(Response, usize),
    /// More bytes are needed.
    Incomplete,
    /// The bytes do not form a response: the connection is unusable.
    Malformed(ParseError),
}

impl View for Decoded {
    type V = Parsed;

    open spec fn view(&self) -> Parsed {
        match self {
            Decoded::Complete(r, n) => Parsed::Complete(r@, *n as nat),
            Decoded::Incomplete => Parsed::Incomplete,
            Decoded::Malformed(e) => Parsed::Malformed(*e),
        }
    }
}

fn class_has(c: u8, k: &Class) -> (r: bool)
    ensures
        r == in_class(c, *k),
{
    match k {
        Class::Digit => 48 <= c && c <= 57,
        Class::Space => c == 32 || c == 9,
        Class::NameChar => c != 32 && c != 13 && c != 10 && c != 58,
        Class::TextChar => c != 32 && c != 13 && c != 10,
        Class::ValueChar => c != 13 && c != 10,
    }
}

/// Scans the line `b[s..e]` from `i` over bytes of class `k`.
fn scan_line(b: &[u8], s: usize, i: usize, e: usize, k: Class) -> (r: usize)
    requires
        s <= i <= e <= b@.len(),
    ensures
        r == s + scan(b@.subrange(s as int, e as int), i - s, k),
        i <= r <= e,
{
    let ghost l = b@.subrange(s as int, e as int);
    proof {
        lemma_scan(l, i - s, k);
    }
    let mut j = i;
    while j < e && class_has(b[j], &k)
        invariant
            s <= i <= j <= e <= b@.len(),
            l == b@.subrange(s as int, e as int),
            scan(l, i - s, k) == scan(l, j - s, k),
        decreases e - j,
    {
        assert(l[j - s] == b@[j as int]);
        j = j + 1;
    }
    proof {
        if j < e {
            assert(l[j - s] == b@[j as int]);
        }
    }
    j
}

/// Whether the line `b[s..e]` starts with `lit`.
fn starts_with(b: &[u8], s: usize, e: usize, lit: &Vec<u8>) -> (r: bool)
    requires
        s <= e <= b@.len(),
    ensures
        r == (e - s >= lit@.len() && b@.subrange(s as int, e as int).subrange(0, lit@.len() as int) == lit@),
{
    let ghost l = b@.subrange(s as int, e as int);
    if e - s < lit.len() {
        return false;
    }
    let mut k: usize = 0;
    while k < lit.len()
        invariant
            s <= e <= b@.len(),
            e - s >= lit@.len(),
            l == b@.subrange(s as int, e as int),
            k <= lit@.len(),
            forall|j: int| 0 <= j < k ==> l[j] == lit@[j],
        decreases lit@.len() - k,
    {
        if b[s + k] != lit[k] {
            assert(l.subrange(0, lit@.len() as int)[k as int] != lit@[k as int]);
            return false;
        }
        k = k + 1;
    }
    assert(l.subrange(0, lit@.len() as int) =~= lit@);
    true
}

/// The index of the first CR LF at or after `from`.
fn find_crlf_in(b: &[u8], from: usize) -> (r: Option<usize>)
    requires
        from <= b@.len(),
    ensures
        r is None <==> find_crlf(b@, from as int) < 0,
        r matches Some(e) ==> e == find_crlf(b@, from as int) && from <= e && e + 2 <= b@.len(),
{
    proof {
        lemma_find_crlf(b@, from as int);
    }
    let mut i = from;
    while b.len() - i > 1
        invariant
            from <= i <= b@.len(),
            find_crlf(b@, from as int) == find_crlf(b@, i as int),
        decreases b@.len() - i,
    {
        if b[i] == 13 && b[i + 1] == 10 {
            return Some(i);
        }
        i = i + 1;
    }
    None
}

/// The decimal digits `b[s..e]`, known to be digits, as a `u32` if they fit.
fn digits_u32(b: &[u8], s: usize, e: usize) -> (r: Option<u32>)
    requires
        s <= e <= b@.len(),
        forall|j: int| s <= j < e ==> is_digit(#[trigger] b@[j]),
    ensures
        r == (if dec_value(b@.subrange(s as int, e as int)) <= u32::MAX {
            Some(dec_value(b@.subrange(s as int, e as int)) as u32)
        } else {
            None::<u32>
        }),
{
    assert(all_digits(b@.subrange(s as int, e as int))) by {
        assert forall|j: int| 0 <= j < e - s implies is_digit(#[trigger] b@.subrange(s as int, e as int)[j]) by {
            assert(b@.subrange(s as int, e as int)[j] == b@[s + j]);
        }
    }
    match parse_decimal(b, s, e, 0xffff_ffff) {
        Some(v) => Some(v as u32),
        None => None,
    }
}

proof fn lemma_sub_sub(b: Seq<u8>, s: int, e: int, i: int, j: int)
    requires
        0 <= s <= e <= b.len(),
        0 <= i <= j <= e - s,
    ensures
        b.subrange(s, e).subrange(i, j) == b.subrange(s + i, s + j),
{
    assert(b.subrange(s, e).subrange(i, j) =~= b.subrange(s + i, s + j));
}

/// Parses the status line `b[s..e]`.
fn parse_status_line(b: &[u8], s: usize, e: usize) -> (r: Option<(u32, u32, u32, String)>)
    requires
        s <= e <= b@.len(),
    ensures
        match status_line(b@.subrange(s as int, e as int)) {
            None => r is None,
            Some((major, minor, code, text)) => r matches Some((a, c, d, t)) && a == major && c == minor
                && d == code && t@ == text,
        },
{
    let ghost l = b@.subrange(s as int, e as int);
    let prefix: Vec<u8> = vec![82, 84, 83, 80, 47];
    assert(prefix@ =~= rtsp_prefix());
    if !starts_with(b, s, e, &prefix) {
        return None;
    }
    let dot = scan_line(b, s, s + 5, e, Class::Digit);
    if dot == s + 5 || dot == e || b[dot] != 46 {
        return None;
    }
    let minor_end = scan_line(b, s, dot + 1, e, Class::Digit);
    if minor_end == dot + 1 {
        return None;
    }
    let code_start = scan_line(b, s, minor_end, e, Class::Space);
    if code_start == minor_end {
        return None;
    }
    let code_end = scan_line(b, s, code_start, e, Class::Digit);
    if code_end == code_start {
        return None;
    }
    let text_start = scan_line(b, s, code_end, e, Class::Space);
    if text_start == code_end {
        return None;
    }
    let text_end = scan_line(b, s, text_start, e, Class::TextChar);
    if text_end != e {
        return None;
    }
    proof {
        lemma_scan(l, 5, Class::Digit);
        lemma_scan(l, dot - s + 1, Class::Digit);
        lemma_scan(l, code_start - s, Class::Digit);
        lemma_sub_sub(b@, s as int, e as int, 5, dot - s);
        lemma_sub_sub(b@, s as int, e as int, dot - s + 1, minor_end - s);
        lemma_sub_sub(b@, s as int, e as int, code_start - s, code_end - s);
        lemma_sub_sub(b@, s as int, e as int, text_start - s, e - s);
        assert(l[dot - s] == b@[dot as int]);
        assert forall|j: int| s + 5 <= j < dot implies is_digit(#[trigger] b@[j]) by {
            assert(l[j - s] == b@[j]);
        }
        assert forall|j: int| dot + 1 <= j < minor_end implies is_digit(#[trigger] b@[j]) by {
            assert(l[j - s] == b@[j]);
        }
        assert forall|j: int| code_start <= j < code_end implies is_digit(#[trigger] b@[j]) by {
            assert(l[j - s] == b@[j]);
        }
    }
    let major = match digits_u32(b, s + 5, dot) {
        Some(v) => v,
        None => return None,
    };
    let minor = match digits_u32(b, dot + 1, minor_end) {
        Some(v) => v,
        None => return None,
    };
    let code = match digits_u32(b, code_start, code_end) {
        Some(v) => v,
        None => return None,
    };
    match utf8_string(&b[text_start..e]) {
        Some(text) => {
            proof {
                vstd::utf8::encode_utf8_decode_utf8(text@);
            }
            Some((major, minor, code, text))
        },
        None => None,
    }
}

/// Parses the header line `b[s..e]`.
fn parse_header_line(b: &[u8], s: usize, e: usize) -> (r: Option<Header>)
    requires
        s <= e <= b@.len(),
    ensures
        match header_line(b@.subrange(s as int, e as int)) {
            None => r is None,
            Some(h) => r matches Some(x) && x@ == h,
        },
{
    let ghost l = b@.subrange(s as int, e as int);
    let prefix: Vec<u8> = vec![67, 111, 110, 116, 101, 110, 116, 45, 76, 101, 110, 103, 116, 104, 58];
    assert(prefix@ =~= content_length_prefix());
    if starts_with(b, s, e, &prefix) {
        let p = scan_line(b, s, s + 15, e, Class::Space);
        if p > s + 15 && p < e && scan_line(b, s, p, e, Class::Digit) == e {
            proof {
                lemma_scan(l, p - s, Class::Digit);
                lemma_sub_sub(b@, s as int, e as int, p - s, e - s);
                assert forall|j: int| p <= j < e implies is_digit(#[trigger] b@[j]) by {
                    assert(l[j - s] == b@[j]);
                }
            }
            match digits_u32(b, p, e) {
                Some(v) => {
                    return Some(Header::ContentLength { value: v });
                },
                None => {},
            }
        }
    }
    assert(content_length_line(l) is None);
    let n = scan_line(b, s, s, e, Class::NameChar);
    if n == e || b[n] != 58 {
        assert(n < e ==> l[n - s] == b@[n as int]);
        return None;
    }
    assert(l[n - s] == b@[n as int]);
    let v0 = scan_line(b, s, n + 1, e, Class::Space);
    if v0 == n + 1 || scan_line(b, s, v0, e, Class::ValueChar) != e {
        return None;
    }
    proof {
        lemma_sub_sub(b@, s as int, e as int, 0, n - s);
        lemma_sub_sub(b@, s as int, e as int, v0 - s, e - s);
    }
    let name = match utf8_string(&b[s..n]) {
        Some(t) => t,
        None => return None,
    };
    let value = match utf8_string(&b[v0..e]) {
        Some(t) => t,
        None => return None,
    };
    proof {
        vstd::utf8::encode_utf8_decode_utf8(name@);
        vstd::utf8::encode_utf8_decode_utf8(value@);
    }
    Some(Header::Generic { name, value })
}

/// The value of the first `Content-Length` header, 0 if there is none.
pub fn get_content_length(hs: &Vec<Header>) -> (r: u32)
    ensures
        r as nat == content_length(headers_view(hs@)),
{
    let ghost v = headers_view(hs@);
    let mut i: usize = 0;
    assert(v.subrange(0, v.len() as int) =~= v);
    while i < hs.len()
        invariant
            i <= hs@.len(),
            v == headers_view(hs@),
            content_length(v) == content_length(v.subrange(i as int, v.len() as int)),
        decreases hs@.len() - i,
    {
        assert(v.subrange(i as int, v.len() as int).drop_first() =~= v.subrange(i + 1, v.len() as int));
        match &hs[i] {
            Header::ContentLength { value } => {
                return *value;
            },
            Header::Generic { .. } => {},
        }
        i = i + 1;
    }
    0
}

/// Reads one response from the start of `buf`: whole, not yet whole, or not a
/// response at all.
pub fn decode(buf: &[u8]) -> (r: Decoded)
    ensures
        r@ == parse_response(buf@),
        r matches Decoded::Complete(_, n) ==> n <= buf@.len(),
{
    let n = buf.len();
    let e0 = match find_crlf_in(buf, 0) {
        None => return Decoded::Incomplete,
        Some(e) => e,
    };
    let (major, minor, code, status) = match parse_status_line(buf, 0, e0) {
        None => return Decoded::Malformed(ParseError::StatusLine),
        Some(x) => x,
    };
    let mut headers: Vec<Header> = Vec::new();
    let mut pos = e0 + 2;
    assert(headers_view(headers@) =~= Seq::<HeaderView>::empty());
    loop
        invariant
            e0 + 2 <= pos <= buf@.len(),
            n == buf@.len(),
            find_crlf(buf@, 0) == e0,
            status_line(buf@.subrange(0, e0 as int)) == Some((major, minor, code, status@)),
            headers_from(buf@, e0 + 2) == prepend(headers_view(headers@), headers_from(buf@, pos as int)),
        ensures
            pos + 2 <= buf@.len(),
            headers_from(buf@, pos as int) == HeadersOutcome::Done(Seq::empty(), pos + 2),
        decreases buf@.len() - pos,
    {
        let e = match find_crlf_in(buf, pos) {
            None => return Decoded::Incomplete,
            Some(e) => e,
        };
        if e == pos {
            break;
        }
        match parse_header_line(buf, pos, e) {
            None => return Decoded::Malformed(ParseError::HeaderLine),
            Some(h) => {
                let ghost before = headers_view(headers@);
                headers.push(h);
                assert(headers_view(headers@) =~= before + seq![h@]);
                proof {
                    let o = headers_from(buf@, e + 2);
                    match o {
                        HeadersOutcome::Done(t, end) => {
                            assert(before + (seq![h@] + t) =~= (before + seq![h@]) + t);
                        },
                        _ => {},
                    }
                }
            },
        }
        pos = e + 2;
    }
    assert(headers_view(headers@) + Seq::<HeaderView>::empty() =~= headers_view(headers@));
    let pos = pos + 2;
    let cl = get_content_length(&headers);
    if cl as usize > buf.len() - pos {
        return Decoded::Incomplete;
    }
    let end = pos + cl as usize;
    let body = slice_to_vec(&buf[pos..end]);
    let resp = Response { version: (major, minor), status_code: code, status, headers, body };
    Decoded::Complete(resp, end)
}

/// The text of one header line, CR LF included.
pub open spec fn header_text(h: HeaderView) -> Seq<char> {
    match h {
        HeaderView::ContentLength(v) => "ContentLength: "@ + dec_chars(v as nat) + "\r\n"@,
        HeaderView::Generic(name, value) => name + ": "@ + value + "\r\n"@,
    }
}

/// The header lines in order.
pub open spec fn headers_text(hs: Seq<HeaderView>) -> Seq<char>
    decreases hs.len(),
{
    if hs.len() == 0 {
        Seq::empty()
    } else {
        headers_text(hs.drop_last()) + header_text(hs.last())
    }
}

/// The request line, the header lines and the blank line that ends them.
pub open spec fn request_text(r: RequestView) -> Seq<char> {
    r.method + " "@ + r.uri + " RTSP/"@ + dec_chars(r.version.0 as nat) + "."@ + dec_chars(r.version.1 as nat)
        + "\r\n"@ + headers_text(r.headers) + "\r\n"@
}

/// A request on the wire: its text in UTF-8, then its body.
pub open spec fn request_bytes(r: RequestView) -> Seq<u8> {
    encode_utf8(request_text(r)) + r.body
}

fn push_header(s: &mut String, h: &Header)
    ensures
        final(s)@ == old(s)@ + header_text(h@),
{
    match h {
        Header::ContentLength { value } => {
            s.append("ContentLength: ");
            push_decimal(s, *value as u64);
        },
        Header::Generic { name, value } => {
            s.append(name.as_str());
            s.append(": ");
            s.append(value.as_str());
        },
    }
    s.append("\r\n");
    assert(final(s)@ =~= old(s)@ + header_text(h@));
}

/// The header lines of `headers`, in order.
pub fn encode_headers(headers: Vec<Header>) -> (r: String)
    ensures
        r@ == headers_text(headers_view(headers@)),
{
    let ghost v = headers_view(headers@);
    let mut r = String::new();
    let mut i: usize = 0;
    while i < headers.len()
        invariant
            i <= headers@.len(),
            v == headers_view(headers@),
            r@ == headers_text(v.subrange(0, i as int)),
        decreases headers@.len() - i,
    {
        push_header(&mut r, &headers[i]);
        assert(v.subrange(0, i + 1).drop_last() =~= v.subrange(0, i as int));
        i = i + 1;
    }
    assert(v.subrange(0, i as int) =~= v);
    r
}

/// The bytes of `request` on the wire.
pub fn encode(request: Request) -> (r: Vec<u8>)
    ensures
        r@ == request_bytes(request@),
{
    let ghost v = request@;
    let Request { method, uri, version, headers, body } = request;
    let mut text = String::new();
    text.append(method.as_str());
    text.append(" ");
    text.append(uri.as_str());
    text.append(" RTSP/");
    push_decimal(&mut text, version.0 as u64);
    text.append(".");
    push_decimal(&mut text, version.1 as u64);
    text.append("\r\n");
    let hs = encode_headers(headers);
    text.append(hs.as_str());
    text.append("\r\n");
    assert(text@ =~= request_text(v));
    let mut out = slice_to_vec(text.as_str().as_bytes());
    let mut rest = body;
    out.append(&mut rest);
    out
}

#[verifier::external_type_specification]
#[verifier::external_body]
pub struct ExBytesMut(bytes::BytesMut);

/// The bytes that a `BytesMut` holds.
pub uninterp spec fn bytes_contents(b: bytes::BytesMut) -> Seq<u8>;

/// Relies on `BytesMut::as_ref`: the bytes it holds, in order.
#[verifier::external_body]
fn buf_bytes(b: &bytes::BytesMut) -> (r: &[u8])
    ensures
        r@ == bytes_contents(*b),
{
    b.as_ref()
}

/// Relies on `BytesMut::split_to`: the first `n` bytes leave the buffer (it
/// panics where `n` exceeds the length).
#[verifier::external_body]
fn buf_advance(b: &mut bytes::BytesMut, n: usize)
    requires
        n <= bytes_contents(*old(b)).len(),
    ensures
        bytes_contents(*final(b)) == bytes_contents(*old(b)).subrange(n as int, bytes_contents(*old(b)).len() as int),
{
    let _ = b.split_to(n);
}

/// Relies on `BytesMut`'s `From<&[u8]>`: a buffer holding a copy of `s`.
#[verifier::external_body]
fn buf_from(s: &[u8]) -> (r: bytes::BytesMut)
    ensures
        bytes_contents(r) == s@,
{
    bytes::BytesMut::from(s)
}

/// Frames RTSP on a byte stream: requests out, responses in.
pub struct RtspCodec;

impl RtspCodec {
    /// Takes one whole response off the front of `buf`. Where `buf` holds
    /// only part of one, it is left as it is and `None` comes back.
    pub fn decode(&mut self, buf: &mut bytes::BytesMut) -> (r: Result<Option<Response>, ParseError>)
        ensures
            match parse_response(bytes_contents(*old(buf))) {
                Parsed::Complete(v, n) => r matches Ok(Some(resp)) && resp@ == v
                    && bytes_contents(*final(buf)) == bytes_contents(*old(buf)).subrange(n as int, bytes_contents(*old(buf)).len() as int),
                Parsed::Incomplete => r matches Ok(None) && bytes_contents(*final(buf)) == bytes_contents(*old(buf)),
                Parsed::Malformed(e) => r == Err::<Option<Response>, ParseError>(e)
                    && bytes_contents(*final(buf)) == bytes_contents(*old(buf)),
            },
    {
        match decode(buf_bytes(buf)) {
            Decoded::Complete(resp, n) => {
                buf_advance(buf, n);
                Ok(Some(resp))
            },
            Decoded::Incomplete => Ok(None),
            Decoded::Malformed(e) => Err(e),
        }
    }

    /// Replaces the contents of `buf` with the bytes of `request`.
    pub fn encode(&mut self, request: Request, buf: &mut bytes::BytesMut)
        ensures
            bytes_contents(*final(buf)) == request_bytes(request@),
    {
        let bytes = encode(request);
        *buf = buf_from(bytes.as_slice());
    }
}

proof fn lemma_find_crlf_prefix(b: Seq<u8>, k: int, i: int)
    requires
        0 <= i,
        0 <= k <= b.len(),
    ensures
        ({
            let e = find_crlf(b, i);
            let f = find_crlf(b.subrange(0, k), i);
            &&& (e >= 0 && e + 2 <= k) ==> f == e
            &&& (e < 0 || e + 2 > k) ==> f < 0
        }),
    decreases b.len() - i,
{
    let p = b.subrange(0, k);
    if i + 1 < b.len() && !crlf_at(b, i) {
        lemma_find_crlf_prefix(b, k, i + 1);
        if i + 1 < k {
            assert(p[i] == b[i] && p[i + 1] == b[i + 1]);
        }
    } else if i + 1 < k {
        assert(p[i] == b[i] && p[i + 1] == b[i + 1]);
    }
}

proof fn lemma_headers_prefix(b: Seq<u8>, k: int, pos: int)
    requires
        0 <= pos,
        0 <= k <= b.len(),
        headers_from(b, pos) is Done,
    ensures
        headers_from(b, pos) matches HeadersOutcome::Done(_, end) && pos + 2 <= end <= b.len() && (
            if k < end {
                headers_from(b.subrange(0, k), pos) is Incomplete
            } else {
                headers_from(b.subrange(0, k), pos) == headers_from(b, pos)
            }),
    decreases b.len() - pos,
{
    let p = b.subrange(0, k);
    let e = find_crlf(b, pos);
    lemma_find_crlf_prefix(b, k, pos);
    if e > pos {
        lemma_headers_prefix(b, k, e + 2);
        if e + 2 <= k {
            assert(p.subrange(pos, e) =~= b.subrange(pos, e));
        }
    }
}

/// A response arrives whole only with its last byte: every proper prefix of
/// the bytes of one whole response reads as incomplete, never as malformed.
pub proof fn lemma_incremental(b: Seq<u8>, k: int)
    requires
        parse_response(b) matches Parsed::Complete(_, n) && n == b.len(),
        0 <= k < b.len(),
    ensures
        parse_response(b.subrange(0, k)) is Incomplete,
{
    let p = b.subrange(0, k);
    let e0 = find_crlf(b, 0);
    lemma_find_crlf_prefix(b, k, 0);
    lemma_find_crlf(b, 0);
    if e0 + 2 <= k {
        assert(p.subrange(0, e0) =~= b.subrange(0, e0));
        lemma_headers_prefix(b, k, e0 + 2);
    }
}

/// A header as bytes on the wire.
pub enum WireHeader {
    ContentLength(u32),
    Generic(Seq<u8>, Seq<u8>),
}

/// A response as bytes on the wire: its text fields as UTF-8 bytes.
pub struct WireResponse {
    pub version: (u32, u32),
    pub status_code: u32,
    pub status: Seq<u8>,
    pub headers: Seq<WireHeader>,
    pub body: Seq<u8>,
}

pub open spec fn crlf() -> Seq<u8> {
    seq![13u8, 10u8]
}

/// A header line without its CR LF.
pub open spec fn wire_header_line(h: WireHeader) -> Seq<u8> {
    match h {
        WireHeader::ContentLength(v) => content_length_prefix() + seq![32u8] + dec_bytes(v as nat),
        WireHeader::Generic(name, value) => name + seq![58u8, 32u8] + value,
    }
}

pub open spec fn wire_headers_bytes(hs: Seq<WireHeader>) -> Seq<u8>
    decreases hs.len(),
{
    if hs.len() == 0 {
        Seq::empty()
    } else {
        wire_header_line(hs[0]) + crlf() + wire_headers_bytes(hs.drop_first())
    }
}

pub open spec fn wire_status_line(r: WireResponse) -> Seq<u8> {
    rtsp_prefix() + dec_bytes(r.version.0 as nat) + seq![46u8] + dec_bytes(r.version.1 as nat) + seq![32u8]
        + dec_bytes(r.status_code as nat) + seq![32u8] + r.status
}

/// The bytes of a response: status line, header lines, blank line, body.
pub open spec fn response_bytes(r: WireResponse) -> Seq<u8> {
    wire_head(r) + r.body
}

/// The status line, the header lines and the blank line of a response.
pub open spec fn wire_head(r: WireResponse) -> Seq<u8> {
    wire_status_line(r) + crlf() + wire_headers_bytes(r.headers) + crlf()
}

pub open spec fn wire_header_view(h: WireHeader) -> HeaderView {
    match h {
        WireHeader::ContentLength(v) => HeaderView::ContentLength(v),
        WireHeader::Generic(name, value) => HeaderView::Generic(decode_utf8(name), decode_utf8(value)),
    }
}

pub open spec fn wire_headers_view(hs: Seq<WireHeader>) -> Seq<HeaderView> {
    hs.map_values(|h: WireHeader| wire_header_view(h))
}

pub open spec fn wire_response_view(r: WireResponse) -> ResponseView {
    ResponseView {
        version: r.version,
        status_code: r.status_code,
        status: decode_utf8(r.status),
        headers: wire_headers_view(r.headers),
        body: r.body,
    }
}

pub open spec fn all_in_class(s: Seq<u8>, k: Class) -> bool {
    forall|i: int| 0 <= i < s.len() ==> in_class(#[trigger] s[i], k)
}

/// A header that reads back as itself: a generic one has a name of name
/// characters other than `Content-Length`, and a value without CR or LF that
/// does not start with a space or tab; both are UTF-8.
pub open spec fn wire_header_ok(h: WireHeader) -> bool {
    match h {
        WireHeader::ContentLength(_) => true,
        WireHeader::Generic(name, value) => all_in_class(name, Class::NameChar)
            && name != content_length_prefix().drop_last() && all_in_class(value, Class::ValueChar)
            && (value.len() > 0 ==> !in_class(value[0], Class::Space)) && valid_utf8(name) && valid_utf8(value),
    }
}

/// A status line and headers that read back as themselves: a status text of
/// text characters that does not start with a tab, and headers that read back.
pub open spec fn wire_head_ok(r: WireResponse) -> bool {
    &&& all_in_class(r.status, Class::TextChar)
    &&& (r.status.len() > 0 ==> r.status[0] != 9)
    &&& valid_utf8(r.status)
    &&& forall|i: int| 0 <= i < r.headers.len() ==> wire_header_ok(#[trigger] r.headers[i])
}

/// A response that reads back as itself: its head does, and its body is as
/// long as the first `Content-Length` says.
pub open spec fn wire_response_ok(r: WireResponse) -> bool {
    &&& wire_head_ok(r)
    &&& r.body.len() == content_length(wire_headers_view(r.headers))
}

proof fn lemma_scan_run(l: Seq<u8>, i: int, j: int, k: Class)
    requires
        0 <= i <= j <= l.len(),
        forall|m: int| i <= m < j ==> in_class(#[trigger] l[m], k),
        j < l.len() ==> !in_class(l[j], k),
    ensures
        scan(l, i, k) == j,
    decreases j - i,
{
    if i < j {
        lemma_scan_run(l, i + 1, j, k);
    }
}

proof fn lemma_find_crlf_at(b: Seq<u8>, i: int, e: int)
    requires
        0 <= i <= e,
        crlf_at(b, e),
        forall|m: int| i <= m < e ==> #[trigger] b[m] != 13,
    ensures
        find_crlf(b, i) == e,
    decreases e - i,
{
    if i < e {
        lemma_find_crlf_at(b, i + 1, e);
    }
}

proof fn lemma_status_roundtrip(r: WireResponse)
    requires
        wire_response_ok(r),
    ensures
        status_line(wire_status_line(r)) == Some((r.version.0, r.version.1, r.status_code, decode_utf8(r.status))),
        forall|m: int| 0 <= m < wire_status_line(r).len() ==> #[trigger] wire_status_line(r)[m] != 13,
{
    let d1 = dec_bytes(r.version.0 as nat);
    let d2 = dec_bytes(r.version.1 as nat);
    let d3 = dec_bytes(r.status_code as nat);
    lemma_dec_bytes(r.version.0 as nat);
    lemma_dec_bytes(r.version.1 as nat);
    lemma_dec_bytes(r.status_code as nat);
    let l = wire_status_line(r);
    let dot: int = 5 + d1.len() as int;
    let minor_end: int = dot + 1 + d2.len();
    let code_start: int = minor_end + 1;
    let code_end: int = code_start + d3.len();
    let text_start: int = code_end + 1;
    assert(l.len() == text_start + r.status.len());
    assert forall|m: int| 0 <= m < l.len() implies #[trigger] l[m] == (if m < 5 {
        rtsp_prefix()[m]
    } else if m < dot {
        d1[m - 5]
    } else if m == dot {
        46u8
    } else if m < minor_end {
        d2[m - dot - 1]
    } else if m == minor_end {
        32u8
    } else if m < code_end {
        d3[m - code_start]
    } else if m == code_end {
        32u8
    } else {
        r.status[m - text_start]
    }) by {}
    assert forall|m: int| 5 <= m < dot implies in_class(#[trigger] l[m], Class::Digit) by {
        assert(is_digit(d1[m - 5]));
    }
    lemma_scan_run(l, 5, dot, Class::Digit);
    assert forall|m: int| dot + 1 <= m < minor_end implies in_class(#[trigger] l[m], Class::Digit) by {
        assert(is_digit(d2[m - dot - 1]));
    }
    lemma_scan_run(l, dot + 1, minor_end, Class::Digit);
    lemma_scan_run(l, minor_end, code_start, Class::Space);
    assert forall|m: int| code_start <= m < code_end implies in_class(#[trigger] l[m], Class::Digit) by {
        assert(is_digit(d3[m - code_start]));
    }
    lemma_scan_run(l, code_start, code_end, Class::Digit);
    if r.status.len() > 0 {
        assert(l[text_start] == r.status[0]);
        assert(in_class(r.status[0], Class::TextChar));
    }
    lemma_scan_run(l, code_end, text_start, Class::Space);
    assert forall|m: int| text_start <= m < l.len() implies in_class(#[trigger] l[m], Class::TextChar) by {
        assert(in_class(r.status[m - text_start], Class::TextChar));
    }
    lemma_scan_run(l, text_start, l.len() as int, Class::TextChar);
    assert(l.subrange(0, 5) =~= rtsp_prefix());
    assert(l.subrange(5, dot) =~= d1);
    assert(l.subrange(dot + 1, minor_end) =~= d2);
    assert(l.subrange(code_start, code_end) =~= d3);
    assert(l.subrange(text_start, l.len() as int) =~= r.status);
    assert forall|m: int| 0 <= m < l.len() implies #[trigger] l[m] != 13 by {
        if m >= 5 && m < dot {
            assert(is_digit(d1[m - 5]));
        } else if m > dot && m < minor_end {
            assert(is_digit(d2[m - dot - 1]));
        } else if m >= code_start && m < code_end {
            assert(is_digit(d3[m - code_start]));
        } else if m >= text_start {
            assert(in_class(r.status[m - text_start], Class::TextChar));
        }
    }
}

proof fn lemma_header_roundtrip(h: WireHeader)
    requires
        wire_header_ok(h),
    ensures
        header_line(wire_header_line(h)) == Some(wire_header_view(h)),
        wire_header_line(h).len() > 0,
        forall|m: int| 0 <= m < wire_header_line(h).len() ==> #[trigger] wire_header_line(h)[m] != 13,
{
    let l = wire_header_line(h);
    let cp = content_length_prefix();
    match h {
        WireHeader::ContentLength(v) => {
            let d = dec_bytes(v as nat);
            lemma_dec_bytes(v as nat);
            assert forall|m: int| 0 <= m < l.len() implies #[trigger] l[m] == (if m < 15 {
                cp[m]
            } else if m == 15 {
                32u8
            } else {
                d[m - 16]
            }) by {}
            assert(l.subrange(0, 15) =~= cp);
            assert(!in_class(l[16], Class::Space)) by {
                assert(is_digit(d[0]));
            }
            lemma_scan_run(l, 15, 16, Class::Space);
            assert forall|m: int| 16 <= m < l.len() implies in_class(#[trigger] l[m], Class::Digit) by {
                assert(is_digit(d[m - 16]));
            }
            lemma_scan_run(l, 16, l.len() as int, Class::Digit);
            assert(l.subrange(16, l.len() as int) =~= d);
            assert forall|m: int| 0 <= m < l.len() implies #[trigger] l[m] != 13 by {
                if m >= 16 {
                    assert(is_digit(d[m - 16]));
                }
            }
        },
        WireHeader::Generic(name, value) => {
            let n: int = name.len() as int;
            assert forall|m: int| 0 <= m < l.len() implies #[trigger] l[m] == (if m < n {
                name[m]
            } else if m == n {
                58u8
            } else if m == n + 1 {
                32u8
            } else {
                value[m - n - 2]
            }) by {}
            assert(content_length_line(l) is None) by {
                if l.len() >= 15 && l.subrange(0, 15) == cp {
                    if n >= 15 {
                        assert(l.subrange(0, 15)[14] == name[14]);
                        assert(in_class(name[14], Class::NameChar));
                    } else if n == 14 {
                        assert(name =~= cp.drop_last()) by {
                            assert forall|m: int| 0 <= m < 14 implies name[m] == cp.drop_last()[m] by {
                                assert(l.subrange(0, 15)[m] == l[m]);
                            }
                        }
                    } else {
                        assert(l.subrange(0, 15)[n as int] == l[n as int]);
                    }
                }
            }
            assert forall|m: int| 0 <= m < n implies in_class(#[trigger] l[m], Class::NameChar) by {
                assert(in_class(name[m], Class::NameChar));
            }
            lemma_scan_run(l, 0, n as int, Class::NameChar);
            if value.len() > 0 {
                assert(l[n + 2] == value[0]);
            }
            lemma_scan_run(l, n + 1, n + 2, Class::Space);
            assert forall|m: int| n + 2 <= m < l.len() implies in_class(#[trigger] l[m], Class::ValueChar) by {
                assert(in_class(value[m - n - 2], Class::ValueChar));
            }
            lemma_scan_run(l, n + 2, l.len() as int, Class::ValueChar);
            assert(l.subrange(0, n as int) =~= name);
            assert(l.subrange(n + 2, l.len() as int) =~= value);
            assert forall|m: int| 0 <= m < l.len() implies #[trigger] l[m] != 13 by {
                if m < n {
                    assert(in_class(name[m], Class::NameChar));
                } else if m >= n + 2 {
                    assert(in_class(value[m - n - 2], Class::ValueChar));
                }
            }
        },
    }
}

proof fn lemma_headers_roundtrip(b: Seq<u8>, pos: int, hs: Seq<WireHeader>)
    requires
        0 <= pos,
        pos + wire_headers_bytes(hs).len() + 2 <= b.len(),
        b.subrange(pos, pos + wire_headers_bytes(hs).len() + 2) == wire_headers_bytes(hs) + crlf(),
        forall|i: int| 0 <= i < hs.len() ==> wire_header_ok(#[trigger] hs[i]),
    ensures
        headers_from(b, pos) == HeadersOutcome::Done(wire_headers_view(hs), pos + wire_headers_bytes(hs).len() + 2),
    decreases hs.len(),
{
    let w = wire_headers_bytes(hs);
    let sub = b.subrange(pos, pos + w.len() + 2);
    if hs.len() == 0 {
        assert(sub[0] == b[pos] && sub[1] == b[pos + 1]);
        assert(crlf_at(b, pos));
        assert(wire_headers_view(hs) =~= Seq::<HeaderView>::empty());
    } else {
        let line = wire_header_line(hs[0]);
        let rest = hs.drop_first();
        let wr = wire_headers_bytes(rest);
        lemma_header_roundtrip(hs[0]);
        let e: int = pos + line.len();
        assert(w == line + crlf() + wr);
        assert forall|m: int| pos <= m < e implies #[trigger] b[m] != 13 by {
            assert(sub[m - pos] == b[m]);
            assert(sub[m - pos] == line[m - pos]);
        }
        assert(sub[line.len() as int] == b[e] && sub[line.len() as int + 1] == b[e + 1]);
        lemma_find_crlf_at(b, pos, e);
        assert(b.subrange(pos, e) =~= line) by {
            assert forall|m: int| 0 <= m < line.len() implies b.subrange(pos, e)[m] == line[m] by {
                assert(sub[m] == b[pos + m]);
            }
        }
        assert forall|i: int| 0 <= i < rest.len() implies wire_header_ok(#[trigger] rest[i]) by {
            assert(rest[i] == hs[i + 1]);
        }
        assert(b.subrange(e + 2, e + 2 + wr.len() + 2) =~= wr + crlf()) by {
            assert forall|m: int| 0 <= m < wr.len() + 2 implies b.subrange(e + 2, e + 2 + wr.len() + 2)[m] == (wr + crlf())[m] by {
                assert(sub[line.len() as int + 2 + m] == b[e + 2 + m]);
            }
        }
        lemma_headers_roundtrip(b, e + 2, rest);
        assert(seq![wire_header_view(hs[0])] + wire_headers_view(rest) =~= wire_headers_view(hs));
    }
}

/// Reading the bytes of a response, with anything after them, gives that
/// response back, status, headers and body, and the number of its bytes.
#[verifier::rlimit(50)]
pub proof fn lemma_round_trip(r: WireResponse, rest: Seq<u8>)
    requires
        wire_response_ok(r),
    ensures
        parse_response(response_bytes(r) + rest) == Parsed::Complete(wire_response_view(r), response_bytes(r).len()),
{
    let b = response_bytes(r) + rest;
    let l0 = wire_status_line(r);
    let w = wire_headers_bytes(r.headers);
    lemma_status_roundtrip(r);
    let e0 = l0.len() as int;
    assert forall|m: int| 0 <= m < e0 implies #[trigger] b[m] != 13 by {
        assert(b[m] == l0[m]);
    }
    assert(b[e0] == 13 && b[e0 + 1] == 10);
    lemma_find_crlf_at(b, 0, e0);
    assert(b.subrange(0, e0) =~= l0);
    assert(b.subrange(e0 + 2, e0 + 2 + w.len() + 2) =~= w + crlf());
    lemma_headers_roundtrip(b, e0 + 2, r.headers);
    let end = e0 + 2 + w.len() + 2;
    assert(end == response_bytes(r).len() - r.body.len());
    assert(b.subrange(end, end + r.body.len()) =~= r.body);
}

/// Where the header section declares a body of `L` bytes, fewer than `L`
/// bytes after it read as incomplete; with `L` or more, the body is exactly
/// the first `L` of them, and what follows is left for the next response.
pub proof fn lemma_content_length(r: WireResponse, t: Seq<u8>)
    requires
        wire_head_ok(r),
    ensures
        ({
            let l = content_length(wire_headers_view(r.headers));
            let h = wire_head(r);
            &&& t.len() < l ==> parse_response(h + t) is Incomplete
            &&& t.len() >= l ==> parse_response(h + t) == Parsed::Complete(
                wire_response_view(WireResponse { body: t.take(l as int), ..r }),
                h.len() + l,
            )
        }),
{
    let l = content_length(wire_headers_view(r.headers));
    let h = wire_head(r);
    if t.len() >= l {
        let r2 = WireResponse { body: t.take(l as int), ..r };
        assert(wire_head(r2) == h);
        lemma_round_trip(r2, t.skip(l as int));
        assert(response_bytes(r2) + t.skip(l as int) =~= h + t);
    } else {
        let pad = Seq::new((l - t.len()) as nat, |i: int| 0u8);
        let r2 = WireResponse { body: t + pad, ..r };
        assert(wire_head(r2) == h);
        lemma_round_trip(r2, Seq::empty());
        let full = response_bytes(r2);
        assert(full + Seq::<u8>::empty() =~= full);
        lemma_incremental(full, (h.len() + t.len()) as int);
        assert(full.subrange(0, (h.len() + t.len()) as int) =~= h + t);
    }
}

} // verus!
