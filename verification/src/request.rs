//! Request framing: the start-line tokenizer, the header-block tokenizer and
//! the request assembler, each verified against one spec-level parse of the
//! raw bytes.
//!
//! The wire format consumed is one HTTP/1.1 request: a start line
//! `<METHOD> <target> [<version>]`, zero or more `Name: Value` header lines,
//! one empty line, and a body. The declared `Content-Length` (0 when absent
//! or unparsable) bounds the bytes that must still be present; the body is
//! the bytes actually remaining after the header terminator. Malformed input
//! is always a typed error, never a panic.

use vstd::prelude::*;
use vstd::slice::slice_subrange;
use vstd::slice::slice_to_vec;

use crate::headers::HttpHeaders;
use crate::method::HttpRequestMethod;
use crate::method::http_request_method_from_string;
use crate::method::spec_method_of;
use crate::scan::find_byte;
use crate::scan::find_sep;
use crate::scan::lemma_line_next_bounds;
use crate::scan::lemma_spec_find;
use crate::scan::lemma_spec_find_sep;
use crate::scan::lemma_spec_skip;
use crate::scan::parse_length_value;
use crate::scan::skip_byte;
use crate::scan::spec_find;
use crate::scan::spec_skip;
use crate::scan::spec_find_sep;
use crate::scan::spec_length_value;
use crate::scan::spec_line_content;
use crate::scan::spec_line_next;

verus! {

/// Why a byte stream failed to parse as an HTTP/1.1 request.
#[derive(Debug, PartialEq, Eq, Structural, Clone, Copy)]
pub enum HttpParseError {
    /// The stream ended before any start line was read.
    MissingStartLine,
    /// The start line does not begin with a known method token.
    MalformedStartLine,
    /// A header line lacks the `": "` separator.
    MalformedHeader,
    /// The stream ended before the blank line closing the header block.
    MissingHeaderTerminator,
    /// Fewer body bytes remain than the declared `Content-Length`.
    TruncatedBody,
}

/// The mathematical value of a parsed request.
#[verifier::ext_equal]
pub struct RequestView {
    pub method: HttpRequestMethod,
    pub path: Seq<u8>,
    pub headers: Map<Seq<u8>, Seq<u8>>,
    pub body: Seq<u8>,
}

/// One parsed request: an immutable value constructed only by
/// `parse_http_request`.
pub struct HttpRequest {
    pub method: HttpRequestMethod,
    pub path: Vec<u8>,
    pub headers: HttpHeaders,
    pub body: Vec<u8>,
}

impl View for HttpRequest {
    type V = RequestView;

    open spec fn view(&self) -> RequestView {
        RequestView {
            method: self.method,
            path: self.path@,
            headers: self.headers@,
            body: self.body@,
        }
    }
}

impl HttpRequest {
    /// The header mapping keeps its internal invariant.
    pub open spec fn wf(&self) -> bool {
        self.headers.wf()
    }
}

/// The target used when the start line has no second token: `/`.
pub open spec fn spec_default_target() -> Seq<u8> {
    seq![47u8]
}

/// Tokenization of one start line (without its terminator) into its run of
/// space-delimited tokens. The first token must name a method,
/// case-insensitively; the target is the next token, past the run of spaces
/// ending the first; a line with no second token — nothing or only spaces
/// after the method — gets the default target `/`. Anything after the second
/// token (the protocol version) is ignored.
pub open spec fn spec_start_line(line: Seq<u8>) -> Result<
    (HttpRequestMethod, Seq<u8>),
    HttpParseError,
> {
    let sp = spec_find(line, 0, 32);
    match spec_method_of(line.subrange(0, sp)) {
        Option::None => Result::Err(HttpParseError::MalformedStartLine),
        Option::Some(m) => {
            let ts = spec_skip(line, sp, 32);
            if ts == line.len() {
                Result::Ok((m, spec_default_target()))
            } else {
                Result::Ok((m, line.subrange(ts, spec_find(line, ts, 32))))
            }
        },
    }
}

/// Tokenization of one header line (without its terminator): the bytes before
/// the first `": "` are the name, the bytes after it the value, both
/// verbatim. A line with no such separator is no header.
pub open spec fn spec_header_line(line: Seq<u8>) -> Result<(Seq<u8>, Seq<u8>), HttpParseError> {
    let p = spec_find_sep(line, 0);
    if p < line.len() {
        Result::Ok((line.subrange(0, p), line.subrange(p + 2, line.len() as int)))
    } else {
        Result::Err(HttpParseError::MalformedHeader)
    }
}

/// The header block read from position `pos`: header lines accumulate into
/// `acc` (later lines for a name winning) until an empty line, whose end
/// position is returned with the mapping. Running out of input first is a
/// missing terminator; a line without separator aborts the whole block.
pub open spec fn spec_header_block(s: Seq<u8>, pos: int, acc: Map<Seq<u8>, Seq<u8>>) -> Result<
    (Map<Seq<u8>, Seq<u8>>, int),
    HttpParseError,
>
    decreases s.len() - pos,
    when 0 <= pos <= s.len()
    via spec_header_block_decreases
{
    if pos >= s.len() {
        Result::Err(HttpParseError::MissingHeaderTerminator)
    } else {
        let content = spec_line_content(s, pos);
        let next = spec_line_next(s, pos);
        if content.len() == 0 {
            Result::Ok((acc, next))
        } else {
            match spec_header_line(content) {
                Result::Err(e) => Result::Err(e),
                Result::Ok((n, v)) => spec_header_block(s, next, acc.insert(n, v)),
            }
        }
    }
}

#[via_fn]
proof fn spec_header_block_decreases(s: Seq<u8>, pos: int, acc: Map<Seq<u8>, Seq<u8>>) {
    lemma_line_next_bounds(s, pos);
}

/// A header block that succeeds ends at a position inside the input.
pub proof fn lemma_header_block_end_in_bounds(s: Seq<u8>, pos: int, acc: Map<Seq<u8>, Seq<u8>>)
    requires
        0 <= pos <= s.len(),
        spec_header_block(s, pos, acc) is Ok,
    ensures
        0 <= spec_header_block(s, pos, acc)->Ok_0.1 <= s.len(),
    decreases s.len() - pos,
{
    if pos < s.len() {
        lemma_line_next_bounds(s, pos);
        let content = spec_line_content(s, pos);
        let next = spec_line_next(s, pos);
        if content.len() != 0 {
            match spec_header_line(content) {
                Result::Ok((n, v)) => {
                    lemma_header_block_end_in_bounds(s, next, acc.insert(n, v));
                },
                Result::Err(_) => {},
            }
        }
    }
}

/// The raw bytes of the header name `Content-Length`.
pub open spec fn spec_content_length_key() -> Seq<u8> {
    seq![67u8, 111u8, 110u8, 116u8, 101u8, 110u8, 116u8, 45u8, 76u8, 101u8, 110u8, 103u8, 116u8, 104u8]
}

/// The body length a header mapping declares: the resolved value of its
/// `Content-Length` entry, 0 when the header is absent.
pub open spec fn spec_declared_length(m: Map<Seq<u8>, Seq<u8>>) -> int {
    if m.contains_key(spec_content_length_key()) {
        spec_length_value(m[spec_content_length_key()])
    } else {
        0
    }
}

/// The parse of one whole request from raw bytes: the reference every
/// executable entry point is proved against.
pub open spec fn spec_parse(s: Seq<u8>) -> Result<RequestView, HttpParseError> {
    if s.len() == 0 {
        Result::Err(HttpParseError::MissingStartLine)
    } else {
        match spec_start_line(spec_line_content(s, 0)) {
            Result::Err(e) => Result::Err(e),
            Result::Ok((m, target)) => match spec_header_block(
                s,
                spec_line_next(s, 0),
                Map::empty(),
            ) {
                Result::Err(e) => Result::Err(e),
                Result::Ok((hm, body_pos)) => {
                    if spec_declared_length(hm) <= s.len() - body_pos {
                        Result::Ok(
                            RequestView {
                                method: m,
                                path: target,
                                headers: hm,
                                body: s.subrange(body_pos, s.len() as int),
                            },
                        )
                    } else {
                        Result::Err(HttpParseError::TruncatedBody)
                    }
                },
            },
        }
    }
}

/// Splits one start line into its method and target.
pub fn parse_http_start_line(line: &[u8]) -> (r: Result<
    (HttpRequestMethod, Vec<u8>),
    HttpParseError,
>)
    ensures
        match (r, spec_start_line(line@)) {
            (Result::Ok((m, p)), Result::Ok((sm, sp))) => m == sm && p@ == sp,
            (Result::Err(e), Result::Err(f)) => e == f,
            _ => false,
        },
{
    proof {
        lemma_spec_find(line@, 0, 32);
    }
    let sp = find_byte(line, 0, 32);
    let tok = slice_subrange(line, 0, sp);
    match http_request_method_from_string(tok) {
        Option::None => Result::Err(HttpParseError::MalformedStartLine),
        Option::Some(m) => {
            proof {
                lemma_spec_skip(line@, sp as int, 32);
            }
            let ts = skip_byte(line, sp, 32);
            if ts == line.len() {
                let mut p: Vec<u8> = Vec::new();
                p.push(47);
                proof {
                    assert(p@ =~= spec_default_target());
                }
                Result::Ok((m, p))
            } else {
                proof {
                    lemma_spec_find(line@, ts as int, 32);
                }
                let e = find_byte(line, ts, 32);
                Result::Ok((m, slice_to_vec(slice_subrange(line, ts, e))))
            }
        },
    }
}

/// Splits one header line into its name and value.
pub fn parse_http_header(line: &[u8]) -> (r: Result<(Vec<u8>, Vec<u8>), HttpParseError>)
    ensures
        match (r, spec_header_line(line@)) {
            (Result::Ok((n, v)), Result::Ok((sn, sv))) => n@ == sn && v@ == sv,
            (Result::Err(e), Result::Err(f)) => e == f,
            _ => false,
        },
{
    proof {
        lemma_spec_find_sep(line@, 0);
    }
    let p = find_sep(line, 0);
    if p < line.len() {
        let name = slice_to_vec(slice_subrange(line, 0, p));
        let value = slice_to_vec(slice_subrange(line, p + 2, line.len()));
        Result::Ok((name, value))
    } else {
        Result::Err(HttpParseError::MalformedHeader)
    }
}

/// Reads the line starting at `pos`: its content and the position just past
/// its terminator (or the end of input for an unterminated final line).
fn read_line(s: &[u8], pos: usize) -> (r: (Vec<u8>, usize))
    requires
        pos <= s@.len(),
    ensures
        r.0@ == spec_line_content(s@, pos as int),
        r.1 == spec_line_next(s@, pos as int),
        pos <= r.1 <= s@.len(),
        pos < s@.len() ==> pos < r.1,
{
    proof {
        lemma_spec_find(s@, pos as int, 10);
        lemma_line_next_bounds(s@, pos as int);
    }
    let e = find_byte(s, pos, 10);
    if e < s.len() {
        let end = if e > pos && s[e - 1] == 13 {
            e - 1
        } else {
            e
        };
        proof {
            let raw = s@.subrange(pos as int, e as int);
            if e > pos && s@[e - 1] == 13 {
                assert(s@.subrange(pos as int, e - 1) =~= raw.drop_last());
            }
        }
        (slice_to_vec(slice_subrange(s, pos, end)), e + 1)
    } else {
        (slice_to_vec(slice_subrange(s, pos, s.len())), s.len())
    }
}

/// The exact bytes of the header name `Content-Length`.
fn content_length_key() -> (k: Vec<u8>)
    ensures
        k@ == spec_content_length_key(),
{
    let mut k: Vec<u8> = Vec::new();
    k.push(67);
    k.push(111);
    k.push(110);
    k.push(116);
    k.push(101);
    k.push(110);
    k.push(116);
    k.push(45);
    k.push(76);
    k.push(101);
    k.push(110);
    k.push(103);
    k.push(116);
    k.push(104);
    proof {
        assert(k@ =~= spec_content_length_key());
    }
    k
}

/// Parses one HTTP/1.1 request held in `input`: start line, header block up
/// to its blank-line terminator, then the body. Success and every failure are
/// exactly those of `spec_parse` on the same bytes.
pub fn parse_http_request(input: &[u8]) -> (r: Result<HttpRequest, HttpParseError>)
    ensures
        match (r, spec_parse(input@)) {
            (Result::Ok(req), Result::Ok(v)) => req.wf() && req@ == v,
            (Result::Err(e), Result::Err(f)) => e == f,
            _ => false,
        },
{
    if input.len() == 0 {
        return Result::Err(HttpParseError::MissingStartLine);
    }
    let start = read_line(input, 0);
    let after_start = start.1;
    let (method, path) = match parse_http_start_line(start.0.as_slice()) {
        Result::Ok(mp) => mp,
        Result::Err(e) => {
            return Result::Err(e);
        },
    };
    let mut headers = HttpHeaders::new();
    let mut pos: usize = after_start;
    let mut body_pos: usize = 0;
    loop
        invariant_except_break
            pos <= input@.len(),
            headers.wf(),
            spec_header_block(input@, after_start as int, Map::empty())
                == spec_header_block(input@, pos as int, headers@),
            after_start <= input@.len(),
            input@.len() > 0,
            spec_start_line(spec_line_content(input@, 0)) is Ok,
            spec_line_next(input@, 0) == after_start as int,
        ensures
            headers.wf(),
            body_pos <= input@.len(),
            spec_header_block(input@, after_start as int, Map::empty())
                == Result::<(Map<Seq<u8>, Seq<u8>>, int), HttpParseError>::Ok(
                (headers@, body_pos as int),
            ),
        decreases input@.len() - pos,
    {
        if pos >= input.len() {
            proof {
                assert(spec_header_block(input@, pos as int, headers@) == Result::<
                    (Map<Seq<u8>, Seq<u8>>, int),
                    HttpParseError,
                >::Err(HttpParseError::MissingHeaderTerminator));
                assert(spec_parse(input@) == Result::<RequestView, HttpParseError>::Err(
                    HttpParseError::MissingHeaderTerminator,
                ));
            }
            return Result::Err(HttpParseError::MissingHeaderTerminator);
        }
        let line = read_line(input, pos);
        if line.0.len() == 0 {
            body_pos = line.1;
            break;
        }
        match parse_http_header(line.0.as_slice()) {
            Result::Err(e) => {
                proof {
                    assert(spec_header_block(input@, pos as int, headers@) == Result::<
                        (Map<Seq<u8>, Seq<u8>>, int),
                        HttpParseError,
                    >::Err(e));
                    assert(spec_parse(input@) == Result::<RequestView, HttpParseError>::Err(e));
                }
                return Result::Err(e);
            },
            Result::Ok((name, value)) => {
                headers.insert(name, value);
                pos = line.1;
            },
        }
    }
    let key = content_length_key();
    let declared: usize = match headers.get(key.as_slice()) {
        Option::Some(v) => parse_length_value(v.as_slice()),
        Option::None => 0,
    };
    if declared > input.len() - body_pos {
        return Result::Err(HttpParseError::TruncatedBody);
    }
    let body = slice_to_vec(slice_subrange(input, body_pos, input.len()));
    let req = HttpRequest { method, path, headers, body };
    proof {
        assert(spec_parse(input@) matches Result::Ok(v) && req@ =~= v);
    }
    Result::Ok(req)
}

} // verus!
