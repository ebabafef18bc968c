use vstd::prelude::*;
use vstd::slice::slice_subrange;
use vstd::utf8::encode_utf8;
use crate::bytes::{
    all_digits, bytes_eq, copy_range, digits_val, extend_bytes, is_digit, parse_u64_digits,
    str_bytes,
};

verus! {

/// The two request methods the wire protocol recognises.
#[derive(Copy, Clone, Debug, PartialEq, Eq, Structural)]
pub enum HttpMethod {
    GET,
    POST,
}

/// A fully formed request: the request-line fields, the header fields in the
/// order they arrived (names not deduplicated), and, for POST, the body bytes.
#[derive(Debug)]
pub struct HttpRequest {
    pub body: Option<Vec<u8>>,
    pub headers: Vec<(Vec<u8>, Vec<u8>)>,
    pub method: HttpMethod,
    pub path: Vec<u8>,
    pub version: Vec<u8>,
}

/// The mathematical value of a request: every field as a byte sequence.
pub struct RequestModel {
    pub body: Option<Seq<u8>>,
    pub headers: Seq<(Seq<u8>, Seq<u8>)>,
    pub method: HttpMethod,
    pub path: Seq<u8>,
    pub version: Seq<u8>,
}

/// Byte sequences of a list of header pairs.
pub open spec fn headers_view(hs: Seq<(Vec<u8>, Vec<u8>)>) -> Seq<(Seq<u8>, Seq<u8>)> {
    hs.map_values(|p: (Vec<u8>, Vec<u8>)| (p.0@, p.1@))
}

impl View for HttpRequest {
    type V = RequestModel;

    open spec fn view(&self) -> RequestModel {
        RequestModel {
            body: match self.body {
                Some(b) => Some(b@),
                None => None,
            },
            headers: headers_view(self.headers@),
            method: self.method,
            path: self.path@,
            version: self.version@,
        }
    }
}

/// What one attempt to read a request from a buffer concludes.
#[derive(Debug)]
pub enum ParseOutcome {
    /// The buffer begins with a full request; here it is.
    Complete(HttpRequest),
    /// The buffer may still grow into a request: wait for more input.
    Incomplete,
    /// No extension of the buffer parses: the request can never succeed.
    Malformed,
}

/// The mathematical value of a parse outcome.
pub enum ParseResult {
    Complete(RequestModel),
    Incomplete,
    Malformed,
}

impl View for ParseOutcome {
    type V = ParseResult;

    open spec fn view(&self) -> ParseResult {
        match self {
            ParseOutcome::Complete(req) => ParseResult::Complete(req@),
            ParseOutcome::Incomplete => ParseResult::Incomplete,
            ParseOutcome::Malformed => ParseResult::Malformed,
        }
    }
}

/// Index of the first carriage-return/line-feed pair at or after `from`.
pub open spec fn find_crlf(d: Seq<u8>, from: int) -> Option<int>
    decreases d.len() - from,
{
    if from < 0 || from + 2 > d.len() {
        None
    } else if d[from] == 13 && d[from + 1] == 10 {
        Some(from)
    } else {
        find_crlf(d, from + 1)
    }
}

/// A found line break lies between `from` and the end of the buffer.
pub proof fn lemma_find_crlf_bounds(d: Seq<u8>, from: int)
    ensures
        find_crlf(d, from) matches Some(e) ==> from <= e && e + 2 <= d.len(),
    decreases d.len() - from,
{
    if !(from < 0 || from + 2 > d.len()) && !(d[from] == 13 && d[from + 1] == 10) {
        lemma_find_crlf_bounds(d, from + 1);
    }
}

/// Index of the first occurrence of `b` at or after `from`.
pub open spec fn find_byte(s: Seq<u8>, from: int, b: u8) -> Option<int>
    decreases s.len() - from,
{
    if from < 0 || from >= s.len() {
        None
    } else if s[from] == b {
        Some(from)
    } else {
        find_byte(s, from + 1, b)
    }
}

/// A found byte lies between `from` and the end of the sequence.
pub proof fn lemma_find_byte_bounds(s: Seq<u8>, from: int, b: u8)
    ensures
        find_byte(s, from, b) matches Some(e) ==> from <= e && e < s.len(),
    decreases s.len() - from,
{
    if !(from < 0 || from >= s.len()) && s[from] != b {
        lemma_find_byte_bounds(s, from + 1, b);
    }
}

/// Whether a byte separates the tokens of the request line.
pub open spec fn is_sep(b: u8) -> bool {
    b == 32 || b == 9
}

/// End of the token that starts at `from`: the index of the next separator,
/// or the end of the line.
pub open spec fn token_end(line: Seq<u8>, from: int) -> int
    decreases line.len() - from,
{
    if from < 0 || from >= line.len() {
        line.len() as int
    } else if is_sep(line[from]) {
        from
    } else {
        token_end(line, from + 1)
    }
}

/// The end of a token lies between its start and the end of the line.
pub proof fn lemma_token_end_bounds(line: Seq<u8>, from: int)
    requires
        0 <= from <= line.len(),
    ensures
        from <= token_end(line, from) <= line.len(),
    decreases line.len() - from,
{
    if from < line.len() && !is_sep(line[from]) {
        lemma_token_end_bounds(line, from + 1);
    }
}

/// The first three whitespace-separated tokens of the request line: method
/// token, path, version.  A token is absent when no separator precedes where
/// it would start; consecutive separators yield empty tokens.
pub open spec fn request_line_tokens(line: Seq<u8>) -> (Seq<u8>, Option<Seq<u8>>, Option<Seq<u8>>) {
    let e0 = token_end(line, 0);
    let t0 = line.subrange(0, e0);
    if e0 == line.len() {
        (t0, None, None)
    } else {
        let e1 = token_end(line, e0 + 1);
        let t1 = line.subrange(e0 + 1, e1);
        if e1 == line.len() {
            (t0, Some(t1), None)
        } else {
            let e2 = token_end(line, e1 + 1);
            (t0, Some(t1), Some(line.subrange(e1 + 1, e2)))
        }
    }
}

/// The method a token names, if any.
pub open spec fn method_of(tok: Seq<u8>) -> Option<HttpMethod> {
    if tok == encode_utf8("GET"@) {
        Some(HttpMethod::GET)
    } else if tok == encode_utf8("POST"@) {
        Some(HttpMethod::POST)
    } else {
        None
    }
}

/// Whether a byte counts as leading whitespace of a header value.
pub open spec fn is_ws(b: u8) -> bool {
    b == 32 || b == 9 || b == 10 || b == 11 || b == 12 || b == 13
}

/// First index at or after `from` that does not hold whitespace, or the end.
pub open spec fn skip_ws(s: Seq<u8>, from: int) -> int
    decreases s.len() - from,
{
    if from < 0 || from >= s.len() {
        s.len() as int
    } else if is_ws(s[from]) {
        skip_ws(s, from + 1)
    } else {
        from
    }
}

/// The header field a line holds: the name before the first colon, and the
/// value after it with leading whitespace trimmed.  A line without a colon
/// holds no header field and is skipped.
pub open spec fn header_of_line(line: Seq<u8>) -> Option<(Seq<u8>, Seq<u8>)> {
    match find_byte(line, 0, 58) {
        None => None,
        Some(c) => Some(
            (line.subrange(0, c), line.subrange(skip_ws(line, c + 1), line.len() as int)),
        ),
    }
}

/// A byte with any upper-case letter folded to lower case.
pub open spec fn lower(b: u8) -> u8 {
    if 65 <= b <= 90 {
        (b + 32) as u8
    } else {
        b
    }
}

/// Whether a header name is Content-Length, compared case-insensitively.
pub open spec fn is_content_length(name: Seq<u8>) -> bool {
    name.map_values(|b: u8| lower(b)) == encode_utf8("content-length"@)
}

/// The body length a header value announces: the denoted number when the
/// value is an optional plus sign followed by digits and fits the machine,
/// nothing otherwise.
pub open spec fn content_len_of(value: Seq<u8>) -> Option<int> {
    let dgs = if value.len() > 0 && value[0] == 43 {
        value.drop_first()
    } else {
        value
    };
    if dgs.len() > 0 && all_digits(dgs) && digits_val(dgs) <= usize::MAX {
        Some(digits_val(dgs) as int)
    } else {
        None
    }
}

/// What scanning the header section of a buffer concludes.
pub enum HeaderScan {
    /// No empty line terminates the headers yet.
    NeedMore,
    /// The headers are terminated: the fields in arrival order, the body
    /// length the last parseable Content-Length announced, and the index at
    /// which the body starts.
    Done { headers: Seq<(Seq<u8>, Seq<u8>)>, content_len: Option<int>, body_start: int },
}

/// Scan the header lines that start at `pos`: complete lines up to the first
/// empty line are header fields; the empty line ends the section.
pub open spec fn scan_headers(d: Seq<u8>, pos: int) -> HeaderScan
    decreases d.len() - pos,
        via scan_headers_dec
{
    match find_crlf(d, pos) {
        None => HeaderScan::NeedMore,
        Some(e) => {
            if e == pos {
                HeaderScan::Done { headers: Seq::empty(), content_len: None, body_start: pos + 2 }
            } else {
                match scan_headers(d, e + 2) {
                    HeaderScan::NeedMore => HeaderScan::NeedMore,
                    HeaderScan::Done { headers, content_len, body_start } => {
                        match header_of_line(d.subrange(pos, e)) {
                            None => HeaderScan::Done { headers, content_len, body_start },
                            Some(h) => HeaderScan::Done {
                                headers: seq![h] + headers,
                                content_len: if content_len is Some {
                                    content_len
                                } else if is_content_length(h.0) {
                                    content_len_of(h.1)
                                } else {
                                    None
                                },
                                body_start,
                            },
                        }
                    },
                }
            }
        },
    }
}

#[via_fn]
proof fn scan_headers_dec(d: Seq<u8>, pos: int) {
    lemma_find_crlf_bounds(d, pos);
}

/// The body of a terminated header scan starts within the buffer.
pub proof fn lemma_scan_headers_bounds(d: Seq<u8>, pos: int)
    requires
        0 <= pos,
    ensures
        scan_headers(d, pos) matches HeaderScan::Done { body_start, .. } ==> pos + 2 <= body_start
            <= d.len(),
    decreases d.len() - pos,
{
    lemma_find_crlf_bounds(d, pos);
    match find_crlf(d, pos) {
        None => {},
        Some(e) => {
            if e != pos {
                lemma_scan_headers_bounds(d, e + 2);
            }
        },
    }
}

/// What parsing a buffer concludes, as a function of the bytes alone.
///
/// The buffer is read as carriage-return/line-feed delimited lines: the first
/// is the request line, complete lines up to the first empty line are header
/// fields, and everything after the empty line is the candidate body.  With
/// the request line or the empty line still missing, the outcome is
/// `Incomplete` while input may still arrive and `Malformed` once it cannot;
/// with the headers terminated, a request line that did not yield a method,
/// path and version is `Malformed`; a GET is complete at once with no body,
/// and a POST is complete once the body matches the announced Content-Length
/// or the input has closed.
pub open spec fn parse_spec(d: Seq<u8>, done: bool) -> ParseResult {
    match find_crlf(d, 0) {
        None => if done {
            ParseResult::Malformed
        } else {
            ParseResult::Incomplete
        },
        Some(rl_end) => {
            let toks = request_line_tokens(d.subrange(0, rl_end));
            match scan_headers(d, rl_end + 2) {
                HeaderScan::NeedMore => if done {
                    ParseResult::Malformed
                } else {
                    ParseResult::Incomplete
                },
                HeaderScan::Done { headers, content_len, body_start } => {
                    if method_of(toks.0) is None || toks.1 is None || toks.2 is None {
                        ParseResult::Malformed
                    } else {
                        let body = if 0 <= body_start <= d.len() {
                            d.subrange(body_start, d.len() as int)
                        } else {
                            Seq::empty()
                        };
                        match method_of(toks.0) {
                            Some(HttpMethod::GET) => ParseResult::Complete(
                                RequestModel {
                                    body: None,
                                    headers,
                                    method: HttpMethod::GET,
                                    path: toks.1.unwrap(),
                                    version: toks.2.unwrap(),
                                },
                            ),
                            _ => {
                                if done || (content_len matches Some(l) && body.len() == l) {
                                    ParseResult::Complete(
                                        RequestModel {
                                            body: Some(body),
                                            headers,
                                            method: HttpMethod::POST,
                                            path: toks.1.unwrap(),
                                            version: toks.2.unwrap(),
                                        },
                                    )
                                } else {
                                    ParseResult::Incomplete
                                }
                            },
                        }
                    }
                },
            }
        },
    }
}

impl HttpRequest {
    /// The request body, when one is present.
    pub fn body(&self) -> (r: Option<&Vec<u8>>)
        ensures
            match r {
                Some(b) => self.body == Some(*b),
                None => self.body is None,
            },
    {
        self.body.as_ref()
    }

    /// The value of the first header with the given name, compared
    /// case-sensitively, if one is present.
    pub fn header(&self, name: &[u8]) -> (r: Option<&Vec<u8>>)
        ensures
            match r {
                Some(v) => header_lookup(self@.headers, name@) == Some(v@),
                None => header_lookup(self@.headers, name@) is None,
            },
    {
        let n = self.headers.len();
        let mut i: usize = 0;
        assert(self@.headers.skip(0) =~= self@.headers);
        while i < n
            invariant
                i <= n,
                n == self.headers@.len(),
                header_lookup(self@.headers, name@) == header_lookup(
                    self@.headers.skip(i as int),
                    name@,
                ),
        decreases n - i,
        {
            let pair = &self.headers[i];
            if bytes_eq(pair.0.as_slice(), name) {
                assert(self@.headers.skip(i as int)[0] == self@.headers[i as int]);
                return Some(&pair.1);
            }
            proof {
                assert(self@.headers.skip(i as int)[0] == self@.headers[i as int]);
                assert(self@.headers.skip(i as int).drop_first() =~= self@.headers.skip(
                    i as int + 1,
                ));
            }
            i = i + 1;
        }
        None
    }

    /// The method of this request.
    pub fn method(&self) -> (r: HttpMethod)
        ensures
            r == self.method,
    {
        self.method
    }

    /// The path of this request.
    pub fn path(&self) -> (r: &Vec<u8>)
        ensures
            r == &self.path,
    {
        &self.path
    }

    /// The version of this request, e.g. the bytes of "HTTP/1.1".
    pub fn version(&self) -> (r: &Vec<u8>)
        ensures
            r == &self.version,
    {
        &self.version
    }
}

/// The value of the first header pair whose name matches, if any.
pub open spec fn header_lookup(hs: Seq<(Seq<u8>, Seq<u8>)>, name: Seq<u8>) -> Option<Seq<u8>>
    decreases hs.len(),
{
    if hs.len() == 0 {
        None
    } else if hs[0].0 == name {
        Some(hs[0].1)
    } else {
        header_lookup(hs.drop_first(), name)
    }
}

/// Find the first line break at or after `from`.
fn find_crlf_exec(d: &[u8], from: usize) -> (r: Option<usize>)
    requires
        from <= d@.len(),
    ensures
        match r {
            Some(e) => find_crlf(d@, from as int) == Some(e as int) && from <= e && e + 2
                <= d@.len(),
            None => find_crlf(d@, from as int) is None,
        },
{
    let n = d.len();
    let mut i: usize = from;
    while n >= 2 && i <= n - 2
        invariant
            from <= i,
            i <= n,
            n == d@.len(),
            find_crlf(d@, from as int) == find_crlf(d@, i as int),
        decreases d@.len() - i,
    {
        if d[i] == 13 && d[i + 1] == 10 {
            return Some(i);
        }
        i = i + 1;
    }
    None
}

/// Find the first occurrence of `b` at or after `from`.
pub fn find_byte_in(d: &[u8], from: usize, b: u8) -> (r: Option<usize>)
    requires
        from <= d@.len(),
    ensures
        match r {
            Some(e) => find_byte(d@, from as int, b) == Some(e as int) && from <= e && e
                < d@.len(),
            None => find_byte(d@, from as int, b) is None,
        },
{
    let mut i: usize = from;
    while i < d.len()
        invariant
            from <= i,
            i <= d@.len(),
            find_byte(d@, from as int, b) == find_byte(d@, i as int, b),
        decreases d@.len() - i,
    {
        if d[i] == b {
            return Some(i);
        }
        i = i + 1;
    }
    None
}

/// Find the end of the request-line token that starts at `from`.
fn token_end_exec(line: &[u8], from: usize) -> (r: usize)
    requires
        from <= line@.len(),
    ensures
        r == token_end(line@, from as int),
        from <= r <= line@.len(),
{
    let mut i: usize = from;
    while i < line.len()
        invariant
            from <= i,
            i <= line@.len(),
            token_end(line@, from as int) == token_end(line@, i as int),
        decreases line@.len() - i,
    {
        if line[i] == 32 || line[i] == 9 {
            return i;
        }
        i = i + 1;
    }
    i
}

/// Find the first non-whitespace index at or after `from`.
fn skip_ws_exec(line: &[u8], from: usize) -> (r: usize)
    requires
        from <= line@.len(),
    ensures
        r == skip_ws(line@, from as int),
        from <= r <= line@.len(),
{
    let mut i: usize = from;
    while i < line.len()
        invariant
            from <= i,
            i <= line@.len(),
            skip_ws(line@, from as int) == skip_ws(line@, i as int),
        decreases line@.len() - i,
    {
        let b = line[i];
        if !(b == 32 || b == 9 || b == 10 || b == 11 || b == 12 || b == 13) {
            return i;
        }
        i = i + 1;
    }
    i
}

/// Fold the upper-case letters of a byte sequence to lower case.
fn to_lower_vec(s: &[u8]) -> (r: Vec<u8>)
    ensures
        r@ == s@.map_values(|b: u8| lower(b)),
{
    let mut out: Vec<u8> = Vec::new();
    let mut i: usize = 0;
    while i < s.len()
        invariant
            i <= s@.len(),
            out@.len() == i,
            forall|j: int| 0 <= j < i ==> out@[j] == lower(s@[j]),
        decreases s@.len() - i,
    {
        let b = s[i];
        if 65 <= b && b <= 90 {
            out.push(b + 32);
        } else {
            out.push(b);
        }
        i = i + 1;
    }
    assert(out@ =~= s@.map_values(|b: u8| lower(b)));
    out
}

/// The header field a line holds, if any.
fn header_line_exec(line: &[u8]) -> (r: Option<(Vec<u8>, Vec<u8>)>)
    ensures
        match r {
            None => header_of_line(line@) is None,
            Some(h) => header_of_line(line@) == Some((h.0@, h.1@)),
        },
{
    match find_byte_in(line, 0, 58) {
        None => None,
        Some(c) => {
            let n = line.len();
            assert(c < n);
            let name = copy_range(line, 0, c);
            let vstart = skip_ws_exec(line, c + 1);
            let value = copy_range(line, vstart, line.len());
            Some((name, value))
        },
    }
}

/// The Content-Length a header field announces, if the field is one.
fn content_length_exec(name: &[u8], value: &[u8]) -> (r: Option<usize>)
    ensures
        match r {
            Some(v) => is_content_length(name@) && content_len_of(value@) == Some(v as int),
            None => !is_content_length(name@) || content_len_of(value@) is None,
        },
{
    let lowered = to_lower_vec(name);
    if !bytes_eq(lowered.as_slice(), str_bytes("content-length")) {
        return None;
    }
    let from: usize = if value.len() > 0 && value[0] == 43 {
        1
    } else {
        0
    };
    let ghost dgs = if value@.len() > 0 && value@[0] == 43 {
        value@.drop_first()
    } else {
        value@
    };
    assert(dgs =~= value@.subrange(from as int, value@.len() as int));
    match parse_u64_digits(value, from, value.len()) {
        Some(v) => {
            if v <= usize::MAX as u64 {
                Some(v as usize)
            } else {
                None
            }
        },
        None => None,
    }
}

/// Outcome of scanning the header section of a buffer.
enum ScanOutcome {
    NeedMore,
    Done { headers: Vec<(Vec<u8>, Vec<u8>)>, content_len: Option<usize>, body_start: usize },
}

/// Scan the header lines that start at `pos`.
fn scan_headers_exec(data: &[u8], pos: usize) -> (r: ScanOutcome)
    requires
        pos <= data@.len(),
    ensures
        match r {
            ScanOutcome::NeedMore => scan_headers(data@, pos as int) is NeedMore,
            ScanOutcome::Done { headers, content_len, body_start } => scan_headers(
                data@,
                pos as int,
            ) == (HeaderScan::Done {
                headers: headers_view(headers@),
                content_len: match content_len {
                    Some(v) => Some(v as int),
                    None => None,
                },
                body_start: body_start as int,
            }),
        },
    decreases data@.len() - pos,
{
    let n = data.len();
    match find_crlf_exec(data, pos) {
        None => ScanOutcome::NeedMore,
        Some(e) => {
            assert(e + 2 <= n);
            if e == pos {
                let r = ScanOutcome::Done {
                    headers: Vec::new(),
                    content_len: None,
                    body_start: pos + 2,
                };
                assert(headers_view(Seq::<(Vec<u8>, Vec<u8>)>::empty()) =~= Seq::<(
                    Seq<u8>,
                    Seq<u8>,
                )>::empty());
                r
            } else {
                match scan_headers_exec(data, e + 2) {
                    ScanOutcome::NeedMore => ScanOutcome::NeedMore,
                    ScanOutcome::Done { mut headers, content_len, body_start } => {
                        let line = slice_subrange(data, pos, e);
                        match header_line_exec(line) {
                            None => ScanOutcome::Done { headers, content_len, body_start },
                            Some((name, value)) => {
                                let field_len: Option<usize> = if content_len.is_some() {
                                    None
                                } else {
                                    content_length_exec(name.as_slice(), value.as_slice())
                                };
                                let merged: Option<usize> = match (content_len, field_len) {
                                    (Some(v), _) => Some(v),
                                    (None, f) => f,
                                };
                                let ghost old_headers = headers@;
                                headers.insert(0, (name, value));
                                assert(headers_view(headers@) =~= seq![(name@, value@)]
                                    + headers_view(old_headers));
                                ScanOutcome::Done { headers, content_len: merged, body_start }
                            },
                        }
                    },
                }
            }
        },
    }
}

/// Parse the supplied buffer.
///
/// `done` says whether the input has closed: no further bytes will arrive.
/// The outcome is `parse_spec` of the bytes: `Complete` with the request the
/// buffer begins with, `Incomplete` while more input could still form one,
/// and `Malformed` when no further input can.
pub fn parse(data: &[u8], done: bool) -> (r: ParseOutcome)
    ensures
        r@ == parse_spec(data@, done),
{
    let data_len = data.len();
    let rl_end = match find_crlf_exec(data, 0) {
        None => {
            if done {
                return ParseOutcome::Malformed;
            } else {
                return ParseOutcome::Incomplete;
            }
        },
        Some(e) => e,
    };
    let line = slice_subrange(data, 0, rl_end);
    let ghost toks = request_line_tokens(line@);
    proof {
        lemma_token_end_bounds(line@, 0);
    }

    // Split the request line into its three tokens.
    let e0 = token_end_exec(line, 0);
    let method: Option<HttpMethod> = {
        let tok = slice_subrange(line, 0, e0);
        if bytes_eq(tok, str_bytes("GET")) {
            Some(HttpMethod::GET)
        } else if bytes_eq(tok, str_bytes("POST")) {
            Some(HttpMethod::POST)
        } else {
            None
        }
    };
    assert(method == method_of(toks.0));
    let mut path: Option<Vec<u8>> = None;
    let mut version: Option<Vec<u8>> = None;
    if e0 < line.len() {
        proof {
            lemma_token_end_bounds(line@, e0 + 1);
        }
        let e1 = token_end_exec(line, e0 + 1);
        path = Some(copy_range(line, e0 + 1, e1));
        if e1 < line.len() {
            proof {
                lemma_token_end_bounds(line@, e1 + 1);
            }
            let e2 = token_end_exec(line, e1 + 1);
            version = Some(copy_range(line, e1 + 1, e2));
        }
    }
    assert(match (path, toks.1) {
        (Some(p), Some(t)) => p@ == t,
        (None, None) => true,
        _ => false,
    });
    assert(match (version, toks.2) {
        (Some(v), Some(t)) => v@ == t,
        (None, None) => true,
        _ => false,
    });

    // Scan the header section.
    let scan = scan_headers_exec(data, rl_end + 2);
    let (headers, content_len, body_start) = match scan {
        ScanOutcome::NeedMore => {
            if done {
                return ParseOutcome::Malformed;
            } else {
                return ParseOutcome::Incomplete;
            }
        },
        ScanOutcome::Done { headers, content_len, body_start } => (
            headers,
            content_len,
            body_start,
        ),
    };
    proof {
        lemma_scan_headers_bounds(data@, rl_end + 2);
    }

    let (method, path, version) = match (method, path, version) {
        (Some(m), Some(p), Some(v)) => (m, p, v),
        _ => {
            return ParseOutcome::Malformed;
        },
    };

    match method {
        HttpMethod::GET => ParseOutcome::Complete(
            HttpRequest { body: None, headers, method, path, version },
        ),
        HttpMethod::POST => {
            let body_len = data.len() - body_start;
            let complete = done || match content_len {
                Some(l) => body_len == l,
                None => false,
            };
            if complete {
                let body = copy_range(data, body_start, data.len());
                ParseOutcome::Complete(
                    HttpRequest { body: Some(body), headers, method, path, version },
                )
            } else {
                ParseOutcome::Incomplete
            }
        },
    }
}

/// A response body: a static text or an owned one.
#[derive(Debug)]
pub enum BodyContent {
    Str(&'static str),
    String(String),
}

impl View for BodyContent {
    type V = Seq<u8>;

    /// The bytes of the body.
    open spec fn view(&self) -> Seq<u8> {
        match self {
            BodyContent::Str(s) => encode_utf8(s@),
            BodyContent::String(s) => encode_utf8(s@),
        }
    }
}

impl BodyContent {
    /// The byte length of the body.
    pub fn byte_len(&self) -> (r: usize)
        ensures
            r == self@.len(),
    {
        self.as_bytes().len()
    }

    /// The bytes of the body, as a slice.
    pub fn as_bytes(&self) -> (r: &[u8])
        ensures
            r@ == self@,
    {
        match self {
            BodyContent::Str(s) => str_bytes(s),
            BodyContent::String(s) => str_bytes(s.as_str()),
        }
    }
}

/// The status text a status code determines.
pub open spec fn status_text_spec(status: u16) -> Seq<char> {
    if status == 200 {
        "OK"@
    } else if status == 400 {
        "Bad Request"@
    } else if status == 404 {
        "Not Found"@
    } else if status == 501 {
        "Not Implemented"@
    } else {
        ""@
    }
}

/// A response: the echoed version, the status code with its derived text,
/// the caller's header fields, and the body.  Serialized exactly once and
/// never mutated after construction.
#[derive(Debug)]
pub struct HttpResponse {
    pub body: BodyContent,
    pub status: u16,
    pub status_text: &'static str,
    pub headers: Vec<(&'static str, &'static str)>,
    pub version: Vec<u8>,
}

impl HttpResponse {
    /// Build a response from its parts; the status text is derived from the
    /// status code.
    pub fn new(
        version: Vec<u8>,
        status: u16,
        headers: &[(&'static str, &'static str)],
        body: BodyContent,
    ) -> (r: Self)
        ensures
            r.body == body,
            r.status == status,
            r.status_text@ == status_text_spec(status),
            r.headers@ == headers@,
            r.version == version,
    {
        Self {
            body,
            status,
            status_text: if status == 200 {
                "OK"
            } else if status == 400 {
                "Bad Request"
            } else if status == 404 {
                "Not Found"
            } else if status == 501 {
                "Not Implemented"
            } else {
                ""
            },
            headers: vstd::slice::slice_to_vec(headers),
            version,
        }
    }

    /// Serialize this response to its wire bytes.
    pub fn unparse(&self) -> (r: Vec<u8>)
        ensures
            r@ == serialize_spec(self),
    {
        let mut out: Vec<u8> = Vec::new();
        extend_bytes(&mut out, self.version.as_slice());
        out.push(32);
        let status_digits = crate::bytes::dec_u64(self.status as u64);
        extend_bytes(&mut out, status_digits.as_slice());
        out.push(32);
        extend_bytes(&mut out, str_bytes(self.status_text));
        out.push(13);
        out.push(10);
        assert(out@ =~= status_line(self));

        let n = self.headers.len();
        let mut i: usize = 0;
        while i < n
            invariant
                i <= n,
                n == self.headers@.len(),
                out@ == status_line(self) + header_block(self.headers@.subrange(0, i as int)),
            decreases n - i,
        {
            let (name, value) = self.headers[i];
            extend_bytes(&mut out, str_bytes(name));
            extend_bytes(&mut out, str_bytes(": "));
            extend_bytes(&mut out, str_bytes(value));
            out.push(13);
            out.push(10);
            proof {
                let hs = self.headers@;
                assert(hs.subrange(0, i + 1).drop_last() =~= hs.subrange(0, i as int));
                assert(hs.subrange(0, i + 1).last() == hs[i as int]);
                assert(out@ =~= status_line(self) + header_block(hs.subrange(0, i + 1)));
            }
            i = i + 1;
        }
        assert(self.headers@.subrange(0, n as int) =~= self.headers@);

        extend_bytes(&mut out, str_bytes("Content-Length: "));
        let body_len = self.body.byte_len();
        let len_digits = crate::bytes::dec_u64(body_len as u64);
        extend_bytes(&mut out, len_digits.as_slice());
        out.push(13);
        out.push(10);
        extend_bytes(&mut out, str_bytes("Connection: Close"));
        out.push(13);
        out.push(10);
        out.push(13);
        out.push(10);
        extend_bytes(&mut out, self.body.as_bytes());
        assert(out@ =~= serialize_spec(self));
        out
    }
}

/// The line-break byte pair.
pub open spec fn crlf() -> Seq<u8> {
    seq![13u8, 10u8]
}

/// The first line of the wire format: version, status code in decimal, and
/// status text, separated by single spaces and ended by a line break.
pub open spec fn status_line(r: &HttpResponse) -> Seq<u8> {
    r.version@ + seq![32u8] + crate::bytes::dec_bytes(r.status as nat) + seq![32u8] + encode_utf8(
        r.status_text@,
    ) + crlf()
}

/// One serialized header field: name, a colon and a space, value, line break.
pub open spec fn field_line(h: (&str, &str)) -> Seq<u8> {
    encode_utf8(h.0@) + encode_utf8(": "@) + encode_utf8(h.1@) + crlf()
}

/// The serialized header fields of the caller, in list order.
pub open spec fn header_block(hs: Seq<(&str, &str)>) -> Seq<u8>
    decreases hs.len(),
{
    if hs.len() == 0 {
        Seq::empty()
    } else {
        header_block(hs.drop_last()) + field_line(hs.last())
    }
}

/// The synthesized field announcing the body's byte length.
pub open spec fn content_length_line(n: nat) -> Seq<u8> {
    encode_utf8("Content-Length: "@) + crate::bytes::dec_bytes(n) + crlf()
}

/// The fixed field announcing that the connection closes after the response.
pub open spec fn close_line() -> Seq<u8> {
    encode_utf8("Connection: Close"@) + crlf()
}

/// The wire bytes of a response: status line, the caller's header fields in
/// order, a synthesized Content-Length field, an unconditional
/// Connection: Close field, a blank line, then the body verbatim.
pub open spec fn serialize_spec(r: &HttpResponse) -> Seq<u8> {
    status_line(r) + header_block(r.headers@) + content_length_line(r.body@.len()) + close_line()
        + crlf() + r.body@
}

/// The first line break found in a prefix is also the first found in any
/// extension of it.
proof fn lemma_find_crlf_prefix(s: Seq<u8>, t: Seq<u8>, from: int)
    requires
        s.len() <= t.len(),
        s == t.subrange(0, s.len() as int),
    ensures
        find_crlf(s, from) matches Some(e) ==> find_crlf(t, from) == Some(e),
    decreases s.len() - from,
{
    if !(from < 0 || from + 2 > s.len()) {
        assert(s[from] == t[from]);
        assert(s[from + 1] == t[from + 1]);
        if !(s[from] == 13 && s[from + 1] == 10) {
            lemma_find_crlf_prefix(s, t, from + 1);
        }
    }
}

/// A header section terminated within a prefix scans the same in any
/// extension of it.
proof fn lemma_scan_headers_prefix(s: Seq<u8>, t: Seq<u8>, pos: int)
    requires
        s.len() <= t.len(),
        s == t.subrange(0, s.len() as int),
        0 <= pos,
    ensures
        scan_headers(s, pos) matches HeaderScan::Done { headers, content_len, body_start }
            ==> scan_headers(t, pos) == (HeaderScan::Done { headers, content_len, body_start }),
    decreases s.len() - pos,
{
    lemma_find_crlf_bounds(s, pos);
    match find_crlf(s, pos) {
        None => {},
        Some(e) => {
            lemma_find_crlf_prefix(s, t, pos);
            if e != pos {
                lemma_scan_headers_prefix(s, t, e + 2);
                assert(s.subrange(pos, e) =~= t.subrange(pos, e));
            }
        },
    }
}

/// Parser completeness monotonicity: feeding a strict prefix of a request
/// text with the input still open never contradicts feeding the whole text.
/// A prefix that is already beyond repair leaves every extension beyond
/// repair, and when both the prefix and the full text complete while the
/// input is open, they complete with the same request.
pub proof fn lemma_parse_prefix_monotonic(s: Seq<u8>, t: Seq<u8>, done: bool)
    requires
        s.len() <= t.len(),
        s == t.subrange(0, s.len() as int),
    ensures
        parse_spec(s, false) is Malformed ==> parse_spec(t, done) is Malformed,
        (parse_spec(s, false) is Complete && parse_spec(t, false) is Complete) ==> parse_spec(
            s,
            false,
        )->Complete_0 == parse_spec(t, false)->Complete_0,
{
    lemma_find_crlf_bounds(s, 0);
    match find_crlf(s, 0) {
        None => {},
        Some(rl) => {
            lemma_find_crlf_prefix(s, t, 0);
            assert(s.subrange(0, rl) =~= t.subrange(0, rl));
            lemma_scan_headers_bounds(s, rl + 2);
            lemma_scan_headers_prefix(s, t, rl + 2);
            match scan_headers(s, rl + 2) {
                HeaderScan::NeedMore => {},
                HeaderScan::Done { headers, content_len, body_start } => {
                    if parse_spec(s, false) is Complete && parse_spec(t, false) is Complete {
                        let toks = request_line_tokens(s.subrange(0, rl));
                        match method_of(toks.0) {
                            Some(HttpMethod::GET) => {},
                            Some(HttpMethod::POST) => {
                                // Both complete with the input open: the body observed in
                                // each equals the announced length, so the texts coincide.
                                let l = content_len->0;
                                assert(s.subrange(body_start, s.len() as int).len() == l);
                                assert(t.subrange(body_start, t.len() as int).len() == l);
                                assert(s.len() == t.len());
                                assert(s =~= t);
                            },
                            None => {},
                        }
                    }
                },
            }
        },
    }
}

/// The header fields of the wire format, in order: the caller's fields, then
/// the synthesized Content-Length field, then the Connection: Close field.
pub open spec fn response_fields(r: &HttpResponse) -> Seq<(Seq<u8>, Seq<u8>)> {
    r.headers@.map_values(|h: (&str, &str)| (encode_utf8(h.0@), encode_utf8(h.1@))) + seq![
        (encode_utf8("Content-Length"@), crate::bytes::dec_bytes(r.body@.len())),
        (encode_utf8("Connection"@), encode_utf8("Close"@)),
    ]
}

/// Serializer round-trip shape: for any response whose own header list does
/// not name Content-Length, the wire bytes end with the Connection: Close
/// field, a blank line, and the body verbatim, and exactly one field of the
/// wire format announces a Content-Length: the synthesized one, whose value
/// is the decimal byte length of the body.
pub proof fn lemma_serializer_shape(r: &HttpResponse)
    requires
        forall|i: int| 0 <= i < r.headers@.len() ==> !is_content_length(
            encode_utf8((#[trigger] r.headers@[i]).0@),
        ),
    ensures
        serialize_spec(r) == (status_line(r) + header_block(r.headers@) + content_length_line(
            r.body@.len(),
        )) + (close_line() + crlf() + r.body@),
        ({
            let fs = response_fields(r);
            &&& fs.len() == r.headers@.len() + 2
            &&& is_content_length(fs[fs.len() - 2].0)
            &&& fs[fs.len() - 2].1 == crate::bytes::dec_bytes(r.body@.len())
            &&& forall|i: int| 0 <= i < fs.len() && i != fs.len() - 2 ==> !is_content_length(
                (#[trigger] fs[i]).0,
            )
        }),
{
    assert(serialize_spec(r) == (status_line(r) + header_block(r.headers@) + content_length_line(
        r.body@.len(),
    )) + (close_line() + crlf() + r.body@)) by {
        assert(serialize_spec(r) =~= (status_line(r) + header_block(r.headers@)
            + content_length_line(r.body@.len())) + (close_line() + crlf() + r.body@));
    }
    reveal_strlit("Content-Length");
    reveal_strlit("content-length");
    reveal_strlit("Connection");
    assert(vstd::utf8::is_ascii_chars("Content-Length"@));
    assert(vstd::utf8::is_ascii_chars("content-length"@));
    assert(vstd::utf8::is_ascii_chars("Connection"@));
    vstd::utf8::is_ascii_chars_encode_utf8("Content-Length"@);
    vstd::utf8::is_ascii_chars_encode_utf8("content-length"@);
    vstd::utf8::is_ascii_chars_encode_utf8("Connection"@);
    assert(encode_utf8("Content-Length"@).map_values(|b: u8| lower(b)) =~= encode_utf8(
        "content-length"@,
    ));
    assert(encode_utf8("Connection"@).map_values(|b: u8| lower(b)) != encode_utf8(
        "content-length"@,
    )) by {
        assert(encode_utf8("Connection"@).map_values(|b: u8| lower(b)).len() == 10);
    }
}

impl PartialEq for BodyContent {
    fn eq(&self, other: &BodyContent) -> (r: bool) {
        match (self, other) {
            (BodyContent::Str(a), BodyContent::Str(b)) => bytes_eq(str_bytes(a), str_bytes(b)),
            (BodyContent::String(a), BodyContent::String(b)) => bytes_eq(
                str_bytes(a.as_str()),
                str_bytes(b.as_str()),
            ),
            _ => false,
        }
    }
}

impl vstd::std_specs::cmp::PartialEqSpecImpl for BodyContent {
    open spec fn obeys_eq_spec() -> bool {
        true
    }

    open spec fn eq_spec(&self, other: &BodyContent) -> bool {
        match (self, other) {
            (BodyContent::Str(_), BodyContent::Str(_)) => self@ == other@,
            (BodyContent::String(_), BodyContent::String(_)) => self@ == other@,
            _ => false,
        }
    }
}

/// Whether two header lists hold the same fields.
fn headers_eq(a: &Vec<(Vec<u8>, Vec<u8>)>, b: &Vec<(Vec<u8>, Vec<u8>)>) -> (r: bool)
    ensures
        r == (headers_view(a@) == headers_view(b@)),
{
    if a.len() != b.len() {
        assert(headers_view(a@).len() != headers_view(b@).len());
        return false;
    }
    let n = a.len();
    let mut i: usize = 0;
    while i < n
        invariant
            i <= n,
            n == a@.len() == b@.len(),
            forall|j: int| 0 <= j < i ==> (a@[j].0@, a@[j].1@) == (b@[j].0@, b@[j].1@),
        decreases n - i,
    {
        let pa = &a[i];
        let pb = &b[i];
        if !(bytes_eq(pa.0.as_slice(), pb.0.as_slice()) && bytes_eq(
            pa.1.as_slice(),
            pb.1.as_slice(),
        )) {
            assert(headers_view(a@)[i as int] != headers_view(b@)[i as int]);
            return false;
        }
        i = i + 1;
    }
    assert(headers_view(a@) =~= headers_view(b@));
    true
}

impl PartialEq for HttpRequest {
    fn eq(&self, other: &HttpRequest) -> (r: bool) {
        let bodies = match (&self.body, &other.body) {
            (Some(a), Some(b)) => bytes_eq(a.as_slice(), b.as_slice()),
            (None, None) => true,
            _ => false,
        };
        bodies && headers_eq(&self.headers, &other.headers) && self.method == other.method
            && bytes_eq(self.path.as_slice(), other.path.as_slice()) && bytes_eq(
            self.version.as_slice(),
            other.version.as_slice(),
        )
    }
}

impl vstd::std_specs::cmp::PartialEqSpecImpl for HttpRequest {
    open spec fn obeys_eq_spec() -> bool {
        true
    }

    open spec fn eq_spec(&self, other: &HttpRequest) -> bool {
        self@ == other@
    }
}

impl PartialEq for ParseOutcome {
    fn eq(&self, other: &ParseOutcome) -> (r: bool) {
        match (self, other) {
            (ParseOutcome::Complete(a), ParseOutcome::Complete(b)) => a == b,
            (ParseOutcome::Incomplete, ParseOutcome::Incomplete) => true,
            (ParseOutcome::Malformed, ParseOutcome::Malformed) => true,
            _ => false,
        }
    }
}

impl vstd::std_specs::cmp::PartialEqSpecImpl for ParseOutcome {
    open spec fn obeys_eq_spec() -> bool {
        true
    }

    open spec fn eq_spec(&self, other: &ParseOutcome) -> bool {
        self@ == other@
    }
}

/// The fields of a response as mathematical values: everything that its wire
/// form is built from.
pub open spec fn response_model(r: HttpResponse) -> (
    Seq<u8>,
    u16,
    Seq<char>,
    Seq<(Seq<u8>, Seq<u8>)>,
    Seq<u8>,
) {
    (
        r.body@,
        r.status,
        r.status_text@,
        r.headers@.map_values(|h: (&str, &str)| (encode_utf8(h.0@), encode_utf8(h.1@))),
        r.version@,
    )
}

/// Whether two response header lists hold the same fields.
fn response_headers_eq(a: &Vec<(&'static str, &'static str)>, b: &Vec<(&'static str, &'static str)>) -> (r:
    bool)
    ensures
        r == (response_headers_model(a@) == response_headers_model(b@)),
{
    if a.len() != b.len() {
        assert(response_headers_model(a@).len() != response_headers_model(b@).len());
        return false;
    }
    let n = a.len();
    let mut i: usize = 0;
    while i < n
        invariant
            i <= n,
            n == a@.len() == b@.len(),
            forall|j: int| 0 <= j < i ==> response_headers_model(a@)[j] == response_headers_model(
                b@,
            )[j],
        decreases n - i,
    {
        let pa = a[i];
        let pb = b[i];
        if !(bytes_eq(str_bytes(pa.0), str_bytes(pb.0)) && bytes_eq(
            str_bytes(pa.1),
            str_bytes(pb.1),
        )) {
            assert(response_headers_model(a@)[i as int] != response_headers_model(b@)[i as int]);
            return false;
        }
        assert(response_headers_model(a@)[i as int] == response_headers_model(b@)[i as int]);
        i = i + 1;
    }
    assert(response_headers_model(a@) =~= response_headers_model(b@));
    true
}

/// The header fields of a response as byte pairs.
pub open spec fn response_headers_model(hs: Seq<(&str, &str)>) -> Seq<(Seq<u8>, Seq<u8>)> {
    hs.map_values(|h: (&str, &str)| (encode_utf8(h.0@), encode_utf8(h.1@)))
}

impl PartialEq for HttpResponse {
    fn eq(&self, other: &HttpResponse) -> (r: bool) {
        self.body == other.body && self.status == other.status && bytes_eq(
            str_bytes(self.status_text),
            str_bytes(other.status_text),
        ) && response_headers_eq(&self.headers, &other.headers) && bytes_eq(
            self.version.as_slice(),
            other.version.as_slice(),
        )
    }
}

impl vstd::std_specs::cmp::PartialEqSpecImpl for HttpResponse {
    open spec fn obeys_eq_spec() -> bool {
        true
    }

    open spec fn eq_spec(&self, other: &HttpResponse) -> bool {
        &&& (match (self.body, other.body) {
            (BodyContent::Str(_), BodyContent::Str(_)) => self.body@ == other.body@,
            (BodyContent::String(_), BodyContent::String(_)) => self.body@ == other.body@,
            _ => false,
        })
        &&& self.status == other.status
        &&& encode_utf8(self.status_text@) == encode_utf8(other.status_text@)
        &&& response_headers_model(self.headers@) == response_headers_model(other.headers@)
        &&& self.version@ == other.version@
    }
}

} // verus!
