//! HTTP/1.x messages as spans: request line or status line, header fields
//! and body, each located by its byte offsets in the transcript.

use crate::bytes::{
    blank_tail, byte_in_class, decimal, eq_ignore_case, find_line_end, in_class, is_digit,
    lemma_blank_tail, lemma_line_end, lemma_run_end, line_end, matches_ignore_case, read_decimal,
    run_end, skip_run, trim_blank_tail, ByteClass, COLON, CR, DOT, LF, SPACE,
};
use crate::error::ParseError;
use crate::span::{span, Span};
use vstd::prelude::*;
use vstd::string::StringSliceAdditionalSpecFns;

verus! {

/// One header field: the span of its name and of its value without the
/// blanks around it.
#[derive(Clone, Copy, Debug, PartialEq, Eq, Structural)]
pub struct Header {
    pub name: Span,
    pub value: Span,
}

/// The spans of one HTTP request.
#[derive(Debug)]
pub struct RequestSpans {
    /// The whole request, body included.
    pub span: Span,
    pub method: Span,
    pub target: Span,
    pub headers: Vec<Header>,
    pub body: Span,
}

/// The spans of one HTTP response.
#[derive(Debug)]
pub struct ResponseSpans {
    pub status: u16,
    pub headers: Vec<Header>,
    pub body: Span,
}

pub struct RequestView {
    pub span: Span,
    pub method: Span,
    pub target: Span,
    pub headers: Seq<Header>,
    pub body: Span,
}

pub struct ResponseView {
    pub status: u16,
    pub headers: Seq<Header>,
    pub body: Span,
}

impl View for RequestSpans {
    type V = RequestView;

    open spec fn view(&self) -> RequestView {
        RequestView {
            span: self.span,
            method: self.method,
            target: self.target,
            headers: self.headers@,
            body: self.body,
        }
    }
}

impl View for ResponseSpans {
    type V = ResponseView;

    open spec fn view(&self) -> ResponseView {
        ResponseView { status: self.status, headers: self.headers@, body: self.body }
    }
}

/// Name of the header field that gives the length of the body.
pub open spec fn content_length_name() -> Seq<u8> {
    "content-length".spec_bytes()
}

/// Name of the header field that announces a transfer coding.
pub open spec fn transfer_encoding_name() -> Seq<u8> {
    "transfer-encoding".spec_bytes()
}

/// `HTTP/d.d` stands at `at`.
pub open spec fn is_version(s: Seq<u8>, at: int) -> bool {
    &&& 0 <= at
    &&& at + 8 <= s.len()
    &&& s[at] == 72
    &&& s[at + 1] == 84
    &&& s[at + 2] == 84
    &&& s[at + 3] == 80
    &&& s[at + 4] == 47
    &&& is_digit(s[at + 5])
    &&& s[at + 6] == DOT
    &&& is_digit(s[at + 7])
}

/// The request line `method SP target SP HTTP/d.d` in `s[ls..le]`: the spans
/// of method and target.
pub open spec fn request_line(s: Seq<u8>, ls: int, le: int) -> Option<(Span, Span)> {
    let m = run_end(s, ByteClass::Token, ls, le);
    let t = run_end(s, ByteClass::Visible, m + 1, le);
    if ls < m && m < le && s[m] == SPACE && m + 1 < t && t < le && s[t] == SPACE && t + 9 == le
        && is_version(s, t + 1) {
        Some((span(ls, m), span(m + 1, t)))
    } else {
        None
    }
}

/// The status line `HTTP/d.d SP ddd [SP reason]` in `s[ls..le]`: the status
/// code.
pub open spec fn status_line(s: Seq<u8>, ls: int, le: int) -> Option<u16> {
    if is_version(s, ls) && ls + 12 <= le && s[ls + 8] == SPACE && is_digit(s[ls + 9]) && is_digit(
        s[ls + 10],
    ) && is_digit(s[ls + 11]) && (le == ls + 12 || (s[ls + 12] == SPACE && run_end(
        s,
        ByteClass::Text,
        ls + 13,
        le,
    ) == le)) {
        Some(((s[ls + 9] - 48) * 100 + (s[ls + 10] - 48) * 10 + (s[ls + 11] - 48)) as u16)
    } else {
        None
    }
}

/// The header field `name ":" OWS value OWS` in `s[ls..le]`.
pub open spec fn header_line(s: Seq<u8>, ls: int, le: int) -> Option<Header> {
    let n = run_end(s, ByteClass::Token, ls, le);
    let v = run_end(s, ByteClass::Blank, n + 1, le);
    if ls < n && n < le && s[n] == COLON && run_end(s, ByteClass::Text, n + 1, le) == le {
        Some(Header { name: span(ls, n), value: span(v, blank_tail(s, v, le)) })
    } else {
        None
    }
}

/// The header fields from `pos` up to the empty line, and the offset behind
/// that line.
pub open spec fn header_block(s: Seq<u8>, pos: int) -> Option<(Seq<Header>, int)>
    decreases s.len() - pos,
{
    match line_end(s, pos) {
        None => None,
        Some(le) => if le < pos || le + 2 > s.len() {
            None
        } else if le == pos {
            Some((Seq::empty(), pos + 2))
        } else {
            match header_line(s, pos, le) {
                None => None,
                Some(h) => match header_block(s, le + 2) {
                    None => None,
                    Some((rest, end)) => Some((seq![h] + rest, end)),
                },
            }
        },
    }
}

/// Index of the first of `headers` from `from` on whose name is `name` up to
/// ASCII case.
pub open spec fn first_header(s: Seq<u8>, headers: Seq<Header>, name: Seq<u8>, from: int) -> Option<
    int,
>
    decreases headers.len() - from,
{
    if from < 0 || from >= headers.len() {
        None
    } else if headers[from].name.within(s.len() as int) && eq_ignore_case(
        headers[from].name.of(s),
        name,
    ) {
        Some(from)
    } else {
        first_header(s, headers, name, from + 1)
    }
}

/// End of the body that starts at `start`. A `Transfer-Encoding` field is not
/// accepted. With a `Content-Length` field the body has that many bytes, which
/// must be there (and, if `to_end`, be all that is left). Without one the body
/// is empty, or, if `to_end`, the rest of the buffer.
pub open spec fn body_end(s: Seq<u8>, headers: Seq<Header>, start: int, to_end: bool) -> Option<
    int,
> {
    if first_header(s, headers, transfer_encoding_name(), 0) is Some {
        None
    } else {
        match first_header(s, headers, content_length_name(), 0) {
            None => Some(
                if to_end {
                    s.len() as int
                } else {
                    start
                },
            ),
            Some(i) => {
                let v = headers[i].value;
                let n = decimal(s, v.start as int, v.end as int);
                if v.start < v.end && v.end <= s.len() && run_end(
                    s,
                    ByteClass::Digit,
                    v.start as int,
                    v.end as int,
                ) == v.end && start + n <= s.len() && (to_end ==> start + n == s.len()) {
                    Some(start + n)
                } else {
                    None
                }
            },
        }
    }
}

/// The request that starts at `pos`.
pub open spec fn request_at(s: Seq<u8>, pos: int) -> Option<RequestView> {
    match line_end(s, pos) {
        None => None,
        Some(le) => match (request_line(s, pos, le), header_block(s, le + 2)) {
            (Some((method, target)), Some((headers, start))) => match body_end(
                s,
                headers,
                start,
                false,
            ) {
                Some(end) => Some(
                    RequestView {
                        span: span(pos, end),
                        method,
                        target,
                        headers,
                        body: span(start, end),
                    },
                ),
                None => None,
            },
            _ => None,
        },
    }
}

/// The one request that `s` holds.
pub open spec fn request_of(s: Seq<u8>) -> Option<RequestView> {
    match request_at(s, 0) {
        Some(r) => if r.span.end == s.len() {
            Some(r)
        } else {
            None
        },
        None => None,
    }
}

/// The requests that follow one another from `pos` to the end of `s`.
pub open spec fn requests_from(s: Seq<u8>, pos: int) -> Option<Seq<RequestView>>
    decreases s.len() - pos,
{
    if pos >= s.len() {
        Some(Seq::empty())
    } else {
        match request_at(s, pos) {
            None => None,
            Some(r) => if r.span.end <= pos || r.span.end > s.len() {
                None
            } else {
                match requests_from(s, r.span.end as int) {
                    Some(rest) => Some(seq![r] + rest),
                    None => None,
                }
            },
        }
    }
}

/// The one response that `s` holds.
pub open spec fn response_of(s: Seq<u8>) -> Option<ResponseView> {
    match line_end(s, 0) {
        None => None,
        Some(le) => match (status_line(s, 0, le), header_block(s, le + 2)) {
            (Some(status), Some((headers, start))) => match body_end(s, headers, start, true) {
                Some(end) => Some(ResponseView { status, headers, body: span(start, end) }),
                None => None,
            },
            _ => None,
        },
    }
}

/// The views of a vector of requests.
pub open spec fn request_views(requests: Seq<RequestSpans>) -> Seq<RequestView> {
    requests.map_values(|r: RequestSpans| r@)
}

/// A header field that lies in `s[lo..hi]`: first the name, not empty, then
/// the colon, then the value.
pub open spec fn header_in(h: Header, lo: int, hi: int) -> bool {
    lo <= h.name.start < h.name.end < h.value.start <= h.value.end <= hi
}

/// The header fields of a block lie inside it, and the block ends inside `s`.
pub proof fn lemma_header_block_bounds(s: Seq<u8>, pos: int)
    requires
        0 <= pos,
        s.len() <= usize::MAX,
    ensures
        match header_block(s, pos) {
            Some((headers, end)) => pos + 2 <= end <= s.len() && forall|i: int|
                0 <= i < headers.len() ==> header_in(#[trigger] headers[i], pos, end),
            None => true,
        },
    decreases s.len() - pos,
{
    lemma_line_end(s, pos);
    match line_end(s, pos) {
        None => {},
        Some(le) => {
            if le > pos && le + 2 <= s.len() {
                match header_line(s, pos, le) {
                    None => {},
                    Some(h) => {
                        lemma_header_block_bounds(s, le + 2);
                        let n = run_end(s, ByteClass::Token, pos, le);
                        lemma_run_end(s, ByteClass::Token, pos, le);
                        lemma_run_end(s, ByteClass::Blank, n + 1, le);
                        lemma_blank_tail(s, run_end(s, ByteClass::Blank, n + 1, le), le);
                        assert(header_in(h, pos, le));
                        match header_block(s, le + 2) {
                            None => {},
                            Some((rest, end)) => {
                                let headers = seq![h] + rest;
                                assert forall|i: int| 0 <= i < headers.len() implies header_in(
                                    #[trigger] headers[i],
                                    pos,
                                    end,
                                ) by {
                                    if i > 0 {
                                        assert(headers[i] == rest[i - 1]);
                                        assert(header_in(rest[i - 1], le + 2, end));
                                    }
                                }
                            },
                        }
                    },
                }
            }
        },
    }
}

/// The header field `h` is written in `s` as a line: the name in token
/// bytes, the colon, blanks, the value, which neither begins nor ends with a
/// blank, blanks again, and CR LF.
pub open spec fn header_written(s: Seq<u8>, h: Header) -> bool {
    let name = h.name;
    let value = h.value;
    &&& forall|i: int| name.start <= i < name.end ==> in_class(ByteClass::Token, #[trigger] s[i])
    &&& s[name.end as int] == COLON
    &&& forall|i: int| name.end < i < value.start ==> in_class(ByteClass::Blank, #[trigger] s[i])
    &&& forall|i: int| value.start <= i < value.end ==> in_class(ByteClass::Text, #[trigger] s[i])
    &&& value.start < value.end ==> !in_class(ByteClass::Blank, s[value.start as int]) && !in_class(
        ByteClass::Blank,
        s[value.end - 1],
    )
    &&& exists|le: int|
        value.end <= le && #[trigger] s[le] == CR && s[le + 1] == LF && forall|i: int|
            value.end <= i < le ==> in_class(ByteClass::Blank, #[trigger] s[i])
}

/// A header line is written as `header_written` says.
pub proof fn lemma_header_line_written(s: Seq<u8>, ls: int, le: int)
    requires
        0 <= ls <= le,
        le + 1 < s.len() <= usize::MAX,
        s[le] == CR,
        s[le + 1] == LF,
    ensures
        match header_line(s, ls, le) {
            Some(h) => header_written(s, h),
            None => true,
        },
{
    let n = run_end(s, ByteClass::Token, ls, le);
    lemma_run_end(s, ByteClass::Token, ls, le);
    if ls < n && n < le {
        let v = run_end(s, ByteClass::Blank, n + 1, le);
        lemma_run_end(s, ByteClass::Blank, n + 1, le);
        lemma_run_end(s, ByteClass::Text, n + 1, le);
        lemma_blank_tail(s, v, le);
    }
}

/// Every header field of a block is written as `header_written` says.
pub proof fn lemma_header_block_written(s: Seq<u8>, pos: int)
    requires
        0 <= pos,
        s.len() <= usize::MAX,
    ensures
        match header_block(s, pos) {
            Some((headers, _)) => forall|i: int|
                0 <= i < headers.len() ==> header_written(s, #[trigger] headers[i]),
            None => true,
        },
    decreases s.len() - pos,
{
    lemma_line_end(s, pos);
    match line_end(s, pos) {
        None => {},
        Some(le) => {
            if le > pos && le + 2 <= s.len() {
                lemma_header_line_written(s, pos, le);
                match header_line(s, pos, le) {
                    None => {},
                    Some(h) => {
                        lemma_header_block_written(s, le + 2);
                        match header_block(s, le + 2) {
                            None => {},
                            Some((rest, _)) => {
                                let headers = seq![h] + rest;
                                assert forall|i: int| 0 <= i < headers.len() implies header_written(
                                    s,
                                    #[trigger] headers[i],
                                ) by {
                                    if i > 0 {
                                        assert(headers[i] == rest[i - 1]);
                                    }
                                }
                            },
                        }
                    },
                }
            }
        },
    }
}

/// A request that starts at `pos` and lies in a buffer of `len` bytes: the
/// header fields stand before the body, and the body ends the request.
pub open spec fn request_in(r: RequestView, pos: int, len: int) -> bool {
    &&& r.span.start == pos
    &&& pos < r.body.start <= r.body.end <= len
    &&& r.span.end == r.body.end
    &&& forall|i: int|
        0 <= i < r.headers.len() ==> header_in(#[trigger] r.headers[i], pos, r.body.start as int)
}

/// A request lies where it was found.
pub proof fn lemma_request_at_bounds(s: Seq<u8>, pos: int)
    requires
        0 <= pos,
        s.len() <= usize::MAX,
    ensures
        match request_at(s, pos) {
            Some(r) => request_in(r, pos, s.len() as int),
            None => true,
        },
{
    lemma_line_end(s, pos);
    match line_end(s, pos) {
        None => {},
        Some(le) => {
            lemma_header_block_bounds(s, le + 2);
            match header_block(s, le + 2) {
                None => {},
                Some((headers, start)) => {
                    assert forall|i: int| 0 <= i < headers.len() implies header_in(
                        #[trigger] headers[i],
                        pos,
                        start,
                    ) by {
                        assert(header_in(headers[i], le + 2, start));
                    }
                },
            }
        },
    }
}

/// The header fields of a request are written as `header_written` says.
pub proof fn lemma_request_at_written(s: Seq<u8>, pos: int)
    requires
        0 <= pos,
        s.len() <= usize::MAX,
    ensures
        match request_at(s, pos) {
            Some(r) => forall|i: int|
                0 <= i < r.headers.len() ==> header_written(s, #[trigger] r.headers[i]),
            None => true,
        },
{
    lemma_line_end(s, pos);
    match line_end(s, pos) {
        None => {},
        Some(le) => {
            lemma_header_block_written(s, le + 2);
        },
    }
}

/// The header fields of a response stand before its body, which ends the
/// buffer.
pub proof fn lemma_response_bounds(s: Seq<u8>)
    requires
        s.len() <= usize::MAX,
    ensures
        match response_of(s) {
            Some(r) => 0 < r.body.start <= r.body.end == s.len() && forall|i: int|
                0 <= i < r.headers.len() ==> header_in(
                    #[trigger] r.headers[i],
                    0,
                    r.body.start as int,
                ),
            None => true,
        },
{
    lemma_line_end(s, 0);
    match line_end(s, 0) {
        None => {},
        Some(le) => {
            lemma_header_block_bounds(s, le + 2);
            match header_block(s, le + 2) {
                None => {},
                Some((headers, start)) => {
                    assert forall|i: int| 0 <= i < headers.len() implies header_in(
                        #[trigger] headers[i],
                        0,
                        start,
                    ) by {
                        assert(header_in(headers[i], le + 2, start));
                    }
                },
            }
        },
    }
}

/// The first of the requests of a transcript is the one at its start.
pub proof fn lemma_first_request(s: Seq<u8>)
    ensures
        match requests_from(s, 0) {
            Some(requests) => requests.len() > 0 ==> request_at(s, 0) == Some(requests[0]),
            None => true,
        },
{
}

/// What `first_header` finds is an index of `headers`.
pub proof fn lemma_first_header(s: Seq<u8>, headers: Seq<Header>, name: Seq<u8>, from: int)
    requires
        0 <= from,
    ensures
        match first_header(s, headers, name, from) {
            Some(i) => from <= i < headers.len() && headers[i].name.within(s.len() as int)
                && eq_ignore_case(headers[i].name.of(s), name),
            None => true,
        },
    decreases headers.len() - from,
{
    if from < headers.len() && !(headers[from].name.within(s.len() as int) && eq_ignore_case(
        headers[from].name.of(s),
        name,
    )) {
        lemma_first_header(s, headers, name, from + 1);
    }
}

fn has_version(bytes: &[u8], at: usize) -> (r: bool)
    requires
        at <= bytes.len(),
    ensures
        r == is_version(bytes@, at as int),
{
    if bytes.len() - at < 8 {
        return false;
    }
    bytes[at] == 72 && bytes[at + 1] == 84 && bytes[at + 2] == 84 && bytes[at + 3] == 80 && bytes[at
        + 4] == 47 && byte_in_class(ByteClass::Digit, bytes[at + 5]) && bytes[at + 6] == DOT
        && byte_in_class(ByteClass::Digit, bytes[at + 7])
}

fn parse_request_line(bytes: &[u8], ls: usize, le: usize) -> (r: Option<(Span, Span)>)
    requires
        ls <= le <= bytes.len(),
    ensures
        r == request_line(bytes@, ls as int, le as int),
{
    let m: usize = skip_run(bytes, ByteClass::Token, ls, le);
    if !(ls < m && m < le && bytes[m] == SPACE) {
        return None;
    }
    let t: usize = skip_run(bytes, ByteClass::Visible, m + 1, le);
    if m + 1 < t && t < le && bytes[t] == SPACE && le - t == 9 && has_version(bytes, t + 1) {
        Some((Span { start: ls, end: m }, Span { start: m + 1, end: t }))
    } else {
        None
    }
}

fn parse_status_line(bytes: &[u8], ls: usize, le: usize) -> (r: Option<u16>)
    requires
        ls <= le <= bytes.len(),
    ensures
        r == status_line(bytes@, ls as int, le as int),
{
    if !has_version(bytes, ls) || le - ls < 12 {
        return None;
    }
    if !(bytes[ls + 8] == SPACE && byte_in_class(ByteClass::Digit, bytes[ls + 9]) && byte_in_class(
        ByteClass::Digit,
        bytes[ls + 10],
    ) && byte_in_class(ByteClass::Digit, bytes[ls + 11])) {
        return None;
    }
    if le - ls > 12 {
        if bytes[ls + 12] != SPACE || skip_run(bytes, ByteClass::Text, ls + 13, le) != le {
            return None;
        }
    }
    let hundreds: u16 = (bytes[ls + 9] - 48) as u16;
    let tens: u16 = (bytes[ls + 10] - 48) as u16;
    let ones: u16 = (bytes[ls + 11] - 48) as u16;
    Some(hundreds * 100 + tens * 10 + ones)
}

fn parse_header_line(bytes: &[u8], ls: usize, le: usize) -> (r: Option<Header>)
    requires
        ls <= le <= bytes.len(),
    ensures
        r == header_line(bytes@, ls as int, le as int),
{
    let n: usize = skip_run(bytes, ByteClass::Token, ls, le);
    if !(ls < n && n < le && bytes[n] == COLON) {
        return None;
    }
    if skip_run(bytes, ByteClass::Text, n + 1, le) != le {
        return None;
    }
    let v: usize = skip_run(bytes, ByteClass::Blank, n + 1, le);
    let e: usize = trim_blank_tail(bytes, v, le);
    Some(Header { name: Span { start: ls, end: n }, value: Span { start: v, end: e } })
}

fn parse_header_block(bytes: &[u8], pos: usize) -> (r: Option<(Vec<Header>, usize)>)
    requires
        pos <= bytes.len(),
    ensures
        match r {
            Some((headers, end)) => header_block(bytes@, pos as int) == Some(
                (headers@, end as int),
            ) && pos <= end <= bytes.len(),
            None => header_block(bytes@, pos as int) is None,
        },
{
    let mut headers: Vec<Header> = Vec::new();
    let mut at: usize = pos;
    loop
        invariant
            pos <= at <= bytes.len(),
            match header_block(bytes@, at as int) {
                Some((rest, end)) => header_block(bytes@, pos as int) == Some(
                    (headers@ + rest, end),
                ),
                None => header_block(bytes@, pos as int) is None,
            },
        decreases bytes.len() - at,
    {
        let le: usize = match find_line_end(bytes, at) {
            None => {
                return None;
            },
            Some(le) => le,
        };
        if le == at {
            assert(headers@ + Seq::<Header>::empty() =~= headers@);
            return Some((headers, at + 2));
        }
        let h = match parse_header_line(bytes, at, le) {
            None => {
                return None;
            },
            Some(h) => h,
        };
        proof {
            match header_block(bytes@, le + 2) {
                Some((rest, end)) => {
                    assert((headers@.push(h)) + rest =~= headers@ + (seq![h] + rest));
                },
                None => {},
            }
        }
        headers.push(h);
        at = le + 2;
    }
}

/// Finds the first of `headers` whose name is `name` up to ASCII case.
pub fn find_header(bytes: &[u8], headers: &Vec<Header>, name: &[u8]) -> (r: Option<usize>)
    ensures
        match r {
            Some(i) => first_header(bytes@, headers@, name@, 0) == Some(i as int) && i
                < headers.len(),
            None => first_header(bytes@, headers@, name@, 0) is None,
        },
{
    let mut i: usize = 0;
    while i < headers.len()
        invariant
            0 <= i <= headers.len(),
            first_header(bytes@, headers@, name@, 0) == first_header(
                bytes@,
                headers@,
                name@,
                i as int,
            ),
        decreases headers.len() - i,
    {
        let n = headers[i].name;
        if n.start <= n.end && n.end <= bytes.len() && matches_ignore_case(
            bytes,
            n.start,
            n.end,
            name,
        ) {
            return Some(i);
        }
        i = i + 1;
    }
    None
}

/// The first of `headers` whose name is `name` up to ASCII case.
pub open spec fn header_named(s: Seq<u8>, headers: Seq<Header>, name: Seq<u8>) -> Option<Header> {
    match first_header(s, headers, name, 0) {
        Some(i) => Some(headers[i]),
        None => None,
    }
}

impl RequestSpans {
    /// Looks up the first header field of the request with the given name,
    /// without regard to ASCII case. `bytes` is the transcript that the
    /// request was parsed from.
    pub fn header(&self, bytes: &[u8], name: &[u8]) -> (r: Result<Header, ParseError>)
        ensures
            match r {
                Ok(header) => header_named(bytes@, self@.headers, name@) == Some(header),
                Err(e) => e == ParseError::MissingHeader && header_named(
                    bytes@,
                    self@.headers,
                    name@,
                ) is None,
            },
    {
        match find_header(bytes, &self.headers, name) {
            Some(i) => Ok(self.headers[i]),
            None => Err(ParseError::MissingHeader),
        }
    }
}

impl ResponseSpans {
    /// Looks up the first header field of the response with the given name,
    /// without regard to ASCII case. `bytes` is the transcript that the
    /// response was parsed from.
    pub fn header(&self, bytes: &[u8], name: &[u8]) -> (r: Result<Header, ParseError>)
        ensures
            match r {
                Ok(header) => header_named(bytes@, self@.headers, name@) == Some(header),
                Err(e) => e == ParseError::MissingHeader && header_named(
                    bytes@,
                    self@.headers,
                    name@,
                ) is None,
            },
    {
        match find_header(bytes, &self.headers, name) {
            Some(i) => Ok(self.headers[i]),
            None => Err(ParseError::MissingHeader),
        }
    }
}

fn find_body_end(bytes: &[u8], headers: &Vec<Header>, start: usize, to_end: bool) -> (r: Option<
    usize,
>)
    requires
        start <= bytes.len(),
    ensures
        match r {
            Some(end) => body_end(bytes@, headers@, start as int, to_end) == Some(end as int)
                && start <= end <= bytes.len(),
            None => body_end(bytes@, headers@, start as int, to_end) is None,
        },
{
    if find_header(bytes, headers, "transfer-encoding".as_bytes()).is_some() {
        return None;
    }
    match find_header(bytes, headers, "content-length".as_bytes()) {
        None => Some(
            if to_end {
                bytes.len()
            } else {
                start
            },
        ),
        Some(i) => {
            let v = headers[i].value;
            if !(v.start < v.end && v.end <= bytes.len()) {
                return None;
            }
            if skip_run(bytes, ByteClass::Digit, v.start, v.end) != v.end {
                return None;
            }
            match read_decimal(bytes, v.start, v.end, (bytes.len() - start) as u64) {
                None => None,
                Some(n) => {
                    let end: usize = start + n as usize;
                    if to_end && end != bytes.len() {
                        None
                    } else {
                        Some(end)
                    }
                },
            }
        },
    }
}

fn parse_request_at(bytes: &[u8], pos: usize) -> (r: Option<RequestSpans>)
    requires
        pos <= bytes.len(),
    ensures
        match r {
            Some(request) => request_at(bytes@, pos as int) == Some(request@),
            None => request_at(bytes@, pos as int) is None,
        },
{
    let le: usize = match find_line_end(bytes, pos) {
        None => {
            return None;
        },
        Some(le) => le,
    };
    let (method, target) = match parse_request_line(bytes, pos, le) {
        None => {
            return None;
        },
        Some(line) => line,
    };
    let (headers, start) = match parse_header_block(bytes, le + 2) {
        None => {
            return None;
        },
        Some(block) => block,
    };
    match find_body_end(bytes, &headers, start, false) {
        None => None,
        Some(end) => Some(
            RequestSpans {
                span: Span { start: pos, end },
                method,
                target,
                headers,
                body: Span { start, end },
            },
        ),
    }
}

/// Parses the requests that follow one another in `bytes`, up to its end.
///
/// Succeeds exactly when `bytes` is a sequence of well-formed requests; an
/// empty buffer holds none.
pub fn parse_requests(bytes: &[u8]) -> (r: Result<Vec<RequestSpans>, ParseError>)
    ensures
        match r {
            Ok(requests) => requests_from(bytes@, 0) == Some(request_views(requests@)),
            Err(e) => e == ParseError::MalformedHttp && requests_from(bytes@, 0) is None,
        },
{
    let mut requests: Vec<RequestSpans> = Vec::new();
    let mut at: usize = 0;
    assert(request_views(requests@) =~= Seq::<RequestView>::empty());
    while at < bytes.len()
        invariant
            0 <= at <= bytes.len(),
            match requests_from(bytes@, at as int) {
                Some(rest) => requests_from(bytes@, 0) == Some(request_views(requests@) + rest),
                None => requests_from(bytes@, 0) is None,
            },
        decreases bytes.len() - at,
    {
        let request = match parse_request_at(bytes, at) {
            None => {
                return Err(ParseError::MalformedHttp);
            },
            Some(request) => request,
        };
        let end: usize = request.span.end;
        if end <= at || end > bytes.len() {
            return Err(ParseError::MalformedHttp);
        }
        proof {
            match requests_from(bytes@, end as int) {
                Some(rest) => {
                    assert(request_views(requests@.push(request)) + rest =~= request_views(
                        requests@,
                    ) + (seq![request@] + rest));
                },
                None => {},
            }
        }
        requests.push(request);
        at = end;
    }
    assert(request_views(requests@) + Seq::<RequestView>::empty() =~= request_views(requests@));
    Ok(requests)
}

/// Parses `bytes` as one request.
pub fn parse_request(bytes: &[u8]) -> (r: Result<RequestSpans, ParseError>)
    ensures
        match r {
            Ok(request) => request_of(bytes@) == Some(request@),
            Err(e) => e == ParseError::MalformedHttp && request_of(bytes@) is None,
        },
{
    match parse_request_at(bytes, 0) {
        None => Err(ParseError::MalformedHttp),
        Some(request) => if request.span.end == bytes.len() {
            Ok(request)
        } else {
            Err(ParseError::MalformedHttp)
        },
    }
}

/// Parses `bytes` as one response.
pub fn parse_response(bytes: &[u8]) -> (r: Result<ResponseSpans, ParseError>)
    ensures
        match r {
            Ok(response) => response_of(bytes@) == Some(response@),
            Err(e) => e == ParseError::MalformedHttp && response_of(bytes@) is None,
        },
{
    let le: usize = match find_line_end(bytes, 0) {
        None => {
            return Err(ParseError::MalformedHttp);
        },
        Some(le) => le,
    };
    let status: u16 = match parse_status_line(bytes, 0, le) {
        None => {
            return Err(ParseError::MalformedHttp);
        },
        Some(status) => status,
    };
    let (headers, start) = match parse_header_block(bytes, le + 2) {
        None => {
            return Err(ParseError::MalformedHttp);
        },
        Some(block) => block,
    };
    match find_body_end(bytes, &headers, start, true) {
        None => Err(ParseError::MalformedHttp),
        Some(end) => Ok(ResponseSpans { status, headers, body: Span { start, end } }),
    }
}

} // verus!