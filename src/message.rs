//! RTSP headers, requests and responses, and the session a response names.
use vstd::prelude::*;
use vstd::string::StringExecFns;
use crate::number::{dec_chars, dec_value, is_digit, decimal_string, parse_decimal};
use crate::text::{chars_of, string_of};

verus! {

/// One header line of a request or response.
#[derive(Debug)]
pub enum Header {
    ContentLength { value: u32 },
    Generic { name: String, value: String },
}

/// A header as mathematical values.
pub enum HeaderView {
    ContentLength(u32),
    Generic(Seq<char>, Seq<char>),
}

impl View for Header {
    type V = HeaderView;

    open spec fn view(&self) -> HeaderView {
        match self {
            Header::ContentLength { value } => HeaderView::ContentLength(*value),
            Header::Generic { name, value } => HeaderView::Generic(name@, value@),
        }
    }
}

pub open spec fn headers_view(hs: Seq<Header>) -> Seq<HeaderView> {
    hs.map_values(|h: Header| h@)
}

/// An RTSP request.
#[derive(Debug)]
pub struct Request {
    pub method: String,
    pub uri: String,
    pub version: (u32, u32),
    pub headers: Vec<Header>,
    pub body: Vec<u8>,
}

pub struct RequestView {
    pub method: Seq<char>,
    pub uri: Seq<char>,
    pub version: (u32, u32),
    pub headers: Seq<HeaderView>,
    pub body: Seq<u8>,
}

impl View for Request {
    type V = RequestView;

    open spec fn view(&self) -> RequestView {
        RequestView {
            method: self.method@,
            uri: self.uri@,
            version: self.version,
            headers: headers_view(self.headers@),
            body: self.body@,
        }
    }
}

/// An RTSP response.
#[derive(Debug)]
pub struct Response {
    pub version: (u32, u32),
    pub status_code: u32,
    pub status: String,
    pub headers: Vec<Header>,
    pub body: Vec<u8>,
}

pub struct ResponseView {
    pub version: (u32, u32),
    pub status_code: u32,
    pub status: Seq<char>,
    pub headers: Seq<HeaderView>,
    pub body: Seq<u8>,
}

impl View for Response {
    type V = ResponseView;

    open spec fn view(&self) -> ResponseView {
        ResponseView {
            version: self.version,
            status_code: self.status_code,
            status: self.status@,
            headers: headers_view(self.headers@),
            body: self.body@,
        }
    }
}

/// The request that this client issues: version 1.0, no body, the headers given.
pub open spec fn request_of(method: Seq<char>, uri: Seq<char>, headers: Seq<HeaderView>) -> RequestView {
    RequestView { method, uri, version: (1, 0), headers, body: Seq::empty() }
}

pub open spec fn cseq_header(c_seq: usize) -> HeaderView {
    HeaderView::Generic("CSeq"@, dec_chars(c_seq as nat))
}

fn generic(name: &str, value: String) -> (h: Header)
    ensures
        h@ == HeaderView::Generic(name@, value@),
{
    Header::Generic { name: String::from_str(name), value }
}

fn cseq(c_seq: usize) -> (h: Header)
    ensures
        h@ == cseq_header(c_seq),
{
    generic("CSeq", decimal_string(c_seq as u64))
}

fn build(method: &str, uri: &str, headers: Vec<Header>) -> (r: Request)
    ensures
        r@ == request_of(method@, uri@, headers_view(headers@)),
{
    let r = Request {
        method: String::from_str(method),
        uri: String::from_str(uri),
        version: (1, 0),
        headers,
        body: Vec::new(),
    };
    assert(r.body@ =~= Seq::<u8>::empty());
    r
}

impl Request {
    pub fn options(uri: &str, c_seq: usize) -> (r: Request)
        ensures
            r@ == request_of("OPTIONS"@, uri@, seq![cseq_header(c_seq)]),
    {
        let hs = vec![cseq(c_seq)];
        assert(headers_view(hs@) =~= seq![cseq_header(c_seq)]);
        build("OPTIONS", uri, hs)
    }

    pub fn describe(uri: &str, c_seq: usize) -> (r: Request)
        ensures
            r@ == request_of("DESCRIBE"@, uri@, seq![cseq_header(c_seq)]),
    {
        let hs = vec![cseq(c_seq)];
        assert(headers_view(hs@) =~= seq![cseq_header(c_seq)]);
        build("DESCRIBE", uri, hs)
    }

    pub fn setup(uri: &str, c_seq: usize, transport: &str) -> (r: Request)
        ensures
            r@ == request_of(
                "SETUP"@,
                uri@,
                seq![cseq_header(c_seq), HeaderView::Generic("Transport"@, transport@)],
            ),
    {
        let hs = vec![cseq(c_seq), generic("Transport", String::from_str(transport))];
        assert(headers_view(hs@) =~= seq![cseq_header(c_seq), HeaderView::Generic("Transport"@, transport@)]);
        build("SETUP", uri, hs)
    }

    pub fn play(uri: &str, c_seq: usize, session: String) -> (r: Request)
        ensures
            r@ == request_of(
                "PLAY"@,
                uri@,
                seq![
                    cseq_header(c_seq),
                    HeaderView::Generic("Session"@, session@),
                    HeaderView::Generic("Range"@, "npt=0.000-"@),
                ],
            ),
    {
        let ghost sv = session@;
        let hs = vec![cseq(c_seq), generic("Session", session), generic("Range", String::from_str("npt=0.000-"))];
        assert(headers_view(hs@) =~= seq![
            cseq_header(c_seq),
            HeaderView::Generic("Session"@, sv),
            HeaderView::Generic("Range"@, "npt=0.000-"@),
        ]);
        build("PLAY", uri, hs)
    }

    pub fn pause(uri: &str, c_seq: usize, session: &str) -> (r: Request)
        ensures
            r@ == request_of("PAUSE"@, uri@, seq![cseq_header(c_seq), HeaderView::Generic("Session"@, session@)]),
    {
        let hs = vec![cseq(c_seq), generic("Session", String::from_str(session))];
        assert(headers_view(hs@) =~= seq![cseq_header(c_seq), HeaderView::Generic("Session"@, session@)]);
        build("PAUSE", uri, hs)
    }

    pub fn record(uri: &str, c_seq: usize, session: &str) -> (r: Request)
        ensures
            r@ == request_of("RECORD"@, uri@, seq![cseq_header(c_seq), HeaderView::Generic("Session"@, session@)]),
    {
        let hs = vec![cseq(c_seq), generic("Session", String::from_str(session))];
        assert(headers_view(hs@) =~= seq![cseq_header(c_seq), HeaderView::Generic("Session"@, session@)]);
        build("RECORD", uri, hs)
    }

    pub fn teardown(uri: &str, c_seq: usize, session: &str) -> (r: Request)
        ensures
            r@ == request_of("TEARDOWN"@, uri@, seq![cseq_header(c_seq), HeaderView::Generic("Session"@, session@)]),
    {
        let hs = vec![cseq(c_seq), generic("Session", String::from_str(session))];
        assert(headers_view(hs@) =~= seq![cseq_header(c_seq), HeaderView::Generic("Session"@, session@)]);
        build("TEARDOWN", uri, hs)
    }

    pub fn get_parameter(uri: &str, c_seq: usize, session: String) -> (r: Request)
        ensures
            r@ == request_of("GET_PARAMETER"@, uri@, seq![cseq_header(c_seq), HeaderView::Generic("Session"@, session@)]),
    {
        let ghost sv = session@;
        let hs = vec![cseq(c_seq), generic("Session", session)];
        assert(headers_view(hs@) =~= seq![cseq_header(c_seq), HeaderView::Generic("Session"@, sv)]);
        build("GET_PARAMETER", uri, hs)
    }
}

/// The value of the first generic header named `Session`, empty if there is none.
pub open spec fn session_raw_of(hs: Seq<HeaderView>) -> Seq<char>
    decreases hs.len(),
{
    if hs.len() == 0 {
        Seq::empty()
    } else {
        match hs[0] {
            HeaderView::Generic(name, value) if name == "Session"@ => value,
            _ => session_raw_of(hs.drop_first()),
        }
    }
}

pub open spec fn is_session_header(h: HeaderView) -> bool {
    match h {
        HeaderView::Generic(name, _) => name == "Session"@,
        _ => false,
    }
}

/// The headers hold a generic header named `Session`.
pub open spec fn has_session_of(hs: Seq<HeaderView>) -> bool {
    exists|i: int| 0 <= i < hs.len() && is_session_header(#[trigger] hs[i])
}

pub open spec fn is_sep(c: char) -> bool {
    c == ';' || c == ' '
}

/// The first index at or after `i` that holds a separator, or the length.
pub open spec fn sep_from(s: Seq<char>, i: int) -> int
    decreases s.len() - i,
{
    if i < 0 || i >= s.len() {
        s.len() as int
    } else if is_sep(s[i]) {
        i
    } else {
        sep_from(s, i + 1)
    }
}

/// The first index at or after `i` that holds no space, or the length.
pub open spec fn skip_spaces(s: Seq<char>, i: int) -> int
    decreases s.len() - i,
{
    if i < 0 || i >= s.len() {
        s.len() as int
    } else if s[i] == ' ' {
        skip_spaces(s, i + 1)
    } else {
        i
    }
}

/// The session id: what precedes the first `;` or space.
pub open spec fn session_id_of(raw: Seq<char>) -> Seq<char> {
    raw.subrange(0, sep_from(raw, 0))
}

pub open spec fn timeout_key() -> Seq<char> {
    seq!['t', 'i', 'm', 'e', 'o', 'u', 't', '=']
}

pub open spec fn is_digit_char(c: char) -> bool {
    48 <= (c as u32) <= 57
}

/// ASCII digit characters as bytes.
pub open spec fn digit_bytes(s: Seq<char>) -> Seq<u8> {
    s.map_values(|c: char| (c as u32) as u8)
}

pub const DEFAULT_SESSION_TIMEOUT: u64 = 60;

/// `timeout=` stands at index `t` of `raw`.
pub open spec fn has_timeout_key(raw: Seq<char>, t: int) -> bool {
    0 <= t && t + 8 <= raw.len() && raw.subrange(t, t + 8) == timeout_key()
}

/// Where the timeout's digits start: after the separator that ends the id
/// and any spaces after it, and after `timeout=` where that follows; at the
/// end where the value has no separator.
pub open spec fn timeout_digits_start(raw: Seq<char>) -> int {
    let t = skip_spaces(raw, sep_from(raw, 0) + 1);
    if has_timeout_key(raw, t) {
        t + 8
    } else {
        t
    }
}

/// The timeout in seconds that a `Session` value gives: after the `;` or space
/// that ends the id, optional spaces, an optional `timeout=` and a decimal
/// number up to the next separator; 60 where that is missing or is not a
/// number that fits.
pub open spec fn session_timeout_of(raw: Seq<char>) -> u64 {
    let d = timeout_digits_start(raw);
    let digits = raw.subrange(d, sep_from(raw, d));
    if digits.len() > 0 && (forall|i: int| 0 <= i < digits.len() ==> is_digit_char(#[trigger] digits[i]))
        && dec_value(digit_bytes(digits)) <= u64::MAX {
        dec_value(digit_bytes(digits)) as u64
    } else {
        DEFAULT_SESSION_TIMEOUT
    }
}

fn find_sep(s: &Vec<char>, from: usize) -> (r: usize)
    requires
        from <= s@.len(),
    ensures
        r == sep_from(s@, from as int),
        from <= r <= s@.len(),
{
    let mut i = from;
    while i < s.len() && !(s[i] == ';' || s[i] == ' ')
        invariant
            from <= i <= s@.len(),
            sep_from(s@, from as int) == sep_from(s@, i as int),
        decreases s@.len() - i,
    {
        i = i + 1;
    }
    i
}

fn skip_space_chars(s: &Vec<char>, from: usize) -> (r: usize)
    requires
        from <= s@.len(),
    ensures
        r == skip_spaces(s@, from as int),
        from <= r <= s@.len(),
{
    let mut i = from;
    while i < s.len() && s[i] == ' '
        invariant
            from <= i <= s@.len(),
            skip_spaces(s@, from as int) == skip_spaces(s@, i as int),
        decreases s@.len() - i,
    {
        i = i + 1;
    }
    i
}

/// Whether `timeout=` stands at index `t` of `s`.
fn timeout_key_at(s: &Vec<char>, t: usize) -> (r: bool)
    requires
        t <= s@.len(),
    ensures
        r == has_timeout_key(s@, t as int),
{
    if s.len() - t < 8 {
        return false;
    }
    let key = ['t', 'i', 'm', 'e', 'o', 'u', 't', '='];
    let n = s.len();
    let mut k: usize = 0;
    while k < 8
        invariant
            k <= 8,
            n == s@.len(),
            t + 8 <= s@.len(),
            key@ == timeout_key(),
            forall|j: int| 0 <= j < k ==> s@[t + j] == key@[j],
        decreases 8 - k,
    {
        if s[t + k] != key[k] {
            assert(s@.subrange(t as int, t + 8)[k as int] != timeout_key()[k as int]);
            return false;
        }
        k = k + 1;
    }
    assert(s@.subrange(t as int, t + 8) =~= timeout_key());
    true
}

/// The timeout that the characters of a `Session` value give.
fn timeout_in(s: &Vec<char>) -> (r: u64)
    ensures
        r == session_timeout_of(s@),
{
    let n = s.len();
    let sep = find_sep(s, 0);
    let t = if sep < n { skip_space_chars(s, sep + 1) } else { n };
    let d = if timeout_key_at(s, t) { t + 8 } else { t };
    assert(d == timeout_digits_start(s@));
    let e = find_sep(s, d);
    let ghost digits = s@.subrange(d as int, e as int);
    if e == d {
        return DEFAULT_SESSION_TIMEOUT;
    }
    let mut bytes: Vec<u8> = Vec::new();
    let mut i = d;
    while i < e
        invariant
            d <= i <= e <= s@.len(),
            n == s@.len(),
            d == timeout_digits_start(s@),
            e == sep_from(s@, d as int),
            digits == s@.subrange(d as int, e as int),
            bytes@ == digit_bytes(s@.subrange(d as int, i as int)),
            forall|j: int| 0 <= j < bytes@.len() ==> is_digit(#[trigger] bytes@[j]),
            forall|j: int| d <= j < i ==> is_digit_char(#[trigger] s@[j]),
        decreases e - i,
    {
        let c = s[i];
        let cu = c as u32;
        if !(48 <= cu && cu <= 57) {
            assert(!is_digit_char(digits[i - d]));
            return DEFAULT_SESSION_TIMEOUT;
        }
        bytes.push(cu as u8);
        i = i + 1;
        assert(bytes@ =~= digit_bytes(s@.subrange(d as int, i as int)));
    }
    assert(s@.subrange(d as int, i as int) =~= digits);
    assert(forall|j: int| 0 <= j < digits.len() ==> is_digit_char(#[trigger] digits[j])) by {
        assert forall|j: int| 0 <= j < digits.len() implies is_digit_char(#[trigger] digits[j]) by {
            assert(digits[j] == s@[d + j]);
        }
    }
    assert(bytes@.subrange(0, bytes@.len() as int) =~= bytes@);
    match parse_decimal(bytes.as_slice(), 0, bytes.len(), u64::MAX) {
        Some(v) => v,
        None => DEFAULT_SESSION_TIMEOUT,
    }
}

impl Response {
    /// The raw value of the `Session` header, empty if there is none.
    pub fn session_raw(&self) -> (r: String)
        ensures
            r@ == session_raw_of(self@.headers),
    {
        let key = String::from_str("Session");
        let mut i: usize = 0;
        assert(self@.headers.subrange(0, self@.headers.len() as int) =~= self@.headers);
        while i < self.headers.len()
            invariant
                i <= self.headers@.len(),
                key@ == "Session"@,
                session_raw_of(self@.headers) == session_raw_of(self@.headers.subrange(i as int, self@.headers.len() as int)),
            decreases self.headers@.len() - i,
        {
            let ghost rest = self@.headers.subrange(i as int, self@.headers.len() as int);
            assert(rest.drop_first() =~= self@.headers.subrange(i + 1, self@.headers.len() as int));
            match &self.headers[i] {
                Header::Generic { name, value } => {
                    if name.eq(&key) {
                        return value.clone();
                    }
                }
                Header::ContentLength { .. } => {}
            }
            i = i + 1;
        }
        String::new()
    }

    /// Whether the response carries a `Session` header.
    pub fn has_session(&self) -> (r: bool)
        ensures
            r == has_session_of(self@.headers),
    {
        let key = String::from_str("Session");
        let mut i: usize = 0;
        while i < self.headers.len()
            invariant
                i <= self.headers@.len(),
                key@ == "Session"@,
                forall|j: int| 0 <= j < i ==> !is_session_header(#[trigger] self@.headers[j]),
            decreases self.headers@.len() - i,
        {
            match &self.headers[i] {
                Header::Generic { name, .. } => {
                    if name.eq(&key) {
                        assert(is_session_header(self@.headers[i as int]));
                        return true;
                    }
                },
                Header::ContentLength { .. } => {},
            }
            i = i + 1;
        }
        false
    }

    /// The session id of the `Session` header.
    pub fn session(&self) -> (r: String)
        ensures
            r@ == session_id_of(session_raw_of(self@.headers)),
    {
        let raw = self.session_raw();
        let c = chars_of(raw.as_str());
        let e = find_sep(&c, 0);
        string_of(&c, 0, e)
    }

    /// The session timeout in seconds that the `Session` header gives.
    pub fn session_timeout(&self) -> (r: u64)
        ensures
            r == session_timeout_of(session_raw_of(self@.headers)),
    {
        let raw = self.session_raw();
        let c = chars_of(raw.as_str());
        timeout_in(&c)
    }
}

} // verus!
