//! The closed enumeration of HTTP request methods and its case-insensitive
//! lookup from a raw method token.

use vstd::prelude::*;

verus! {

/// One of the nine HTTP/1.1 request methods.
#[derive(Debug, PartialEq, Eq, Structural, Clone, Copy)]
pub enum HttpRequestMethod {
    Get,
    Head,
    Post,
    Put,
    Delete,
    Connect,
    Options,
    Trace,
    Patch,
}

/// ASCII uppercase of one byte; bytes outside `a..=z` are unchanged.
pub open spec fn spec_upper_byte(b: u8) -> u8 {
    if 97 <= b && b <= 122 {
        (b - 32) as u8
    } else {
        b
    }
}

/// ASCII uppercase of a byte sequence.
pub open spec fn spec_upper(s: Seq<u8>) -> Seq<u8> {
    Seq::new(s.len(), |i: int| spec_upper_byte(s[i]))
}

/// The method named by a token, compared case-insensitively against the nine
/// method names (given here as ASCII byte values); `None` for any other token.
pub open spec fn spec_method_of(tok: Seq<u8>) -> Option<HttpRequestMethod> {
    let u = spec_upper(tok);
    if u == seq![71u8, 69u8, 84u8] {  // GET
        Some(HttpRequestMethod::Get)
    } else if u == seq![72u8, 69u8, 65u8, 68u8] {  // HEAD
        Some(HttpRequestMethod::Head)
    } else if u == seq![80u8, 79u8, 83u8, 84u8] {  // POST
        Some(HttpRequestMethod::Post)
    } else if u == seq![80u8, 85u8, 84u8] {  // PUT
        Some(HttpRequestMethod::Put)
    } else if u == seq![68u8, 69u8, 76u8, 69u8, 84u8, 69u8] {  // DELETE
        Some(HttpRequestMethod::Delete)
    } else if u == seq![67u8, 79u8, 78u8, 78u8, 69u8, 67u8, 84u8] {  // CONNECT
        Some(HttpRequestMethod::Connect)
    } else if u == seq![79u8, 80u8, 84u8, 73u8, 79u8, 78u8, 83u8] {  // OPTIONS
        Some(HttpRequestMethod::Options)
    } else if u == seq![84u8, 82u8, 65u8, 67u8, 69u8] {  // TRACE
        Some(HttpRequestMethod::Trace)
    } else if u == seq![80u8, 65u8, 84u8, 67u8, 72u8] {  // PATCH
        Some(HttpRequestMethod::Patch)
    } else {
        None
    }
}

fn upper_byte(b: u8) -> (r: u8)
    ensures
        r == spec_upper_byte(b),
{
    if 97 <= b && b <= 122 {
        b - 32
    } else {
        b
    }
}

fn to_upper_bytes(s: &[u8]) -> (r: Vec<u8>)
    ensures
        r@ == spec_upper(s@),
{
    let mut out: Vec<u8> = Vec::new();
    let mut i: usize = 0;
    while i < s.len()
        invariant
            0 <= i <= s@.len(),
            out@.len() == i,
            forall|j: int| 0 <= j < i ==> out@[j] == spec_upper_byte(s@[j]),
        decreases s@.len() - i,
    {
        out.push(upper_byte(s[i]));
        i += 1;
    }
    proof {
        assert(out@ =~= spec_upper(s@));
    }
    out
}

fn tok_eq3(u: &Vec<u8>, b0: u8, b1: u8, b2: u8) -> (r: bool)
    ensures
        r <==> u@ == seq![b0, b1, b2],
{
    if u.len() != 3 {
        return false;
    }
    let r = u[0] == b0 && u[1] == b1 && u[2] == b2;
    proof {
        if r {
            assert(u@ =~= seq![b0, b1, b2]);
        }
    }
    r
}

fn tok_eq4(u: &Vec<u8>, b0: u8, b1: u8, b2: u8, b3: u8) -> (r: bool)
    ensures
        r <==> u@ == seq![b0, b1, b2, b3],
{
    if u.len() != 4 {
        return false;
    }
    let r = u[0] == b0 && u[1] == b1 && u[2] == b2 && u[3] == b3;
    proof {
        if r {
            assert(u@ =~= seq![b0, b1, b2, b3]);
        }
    }
    r
}

fn tok_eq5(u: &Vec<u8>, b0: u8, b1: u8, b2: u8, b3: u8, b4: u8) -> (r: bool)
    ensures
        r <==> u@ == seq![b0, b1, b2, b3, b4],
{
    if u.len() != 5 {
        return false;
    }
    let r = u[0] == b0 && u[1] == b1 && u[2] == b2 && u[3] == b3 && u[4] == b4;
    proof {
        if r {
            assert(u@ =~= seq![b0, b1, b2, b3, b4]);
        }
    }
    r
}

fn tok_eq6(u: &Vec<u8>, b0: u8, b1: u8, b2: u8, b3: u8, b4: u8, b5: u8) -> (r: bool)
    ensures
        r <==> u@ == seq![b0, b1, b2, b3, b4, b5],
{
    if u.len() != 6 {
        return false;
    }
    let r = u[0] == b0 && u[1] == b1 && u[2] == b2 && u[3] == b3 && u[4] == b4 && u[5] == b5;
    proof {
        if r {
            assert(u@ =~= seq![b0, b1, b2, b3, b4, b5]);
        }
    }
    r
}

fn tok_eq7(u: &Vec<u8>, b0: u8, b1: u8, b2: u8, b3: u8, b4: u8, b5: u8, b6: u8) -> (r: bool)
    ensures
        r <==> u@ == seq![b0, b1, b2, b3, b4, b5, b6],
{
    if u.len() != 7 {
        return false;
    }
    let r = u[0] == b0 && u[1] == b1 && u[2] == b2 && u[3] == b3 && u[4] == b4 && u[5] == b5
        && u[6] == b6;
    proof {
        if r {
            assert(u@ =~= seq![b0, b1, b2, b3, b4, b5, b6]);
        }
    }
    r
}

/// Looks a raw method token up in the closed method set, case-insensitively.
/// An unrecognized token yields `None`.
pub fn http_request_method_from_string(s: &[u8]) -> (r: Option<HttpRequestMethod>)
    ensures
        r == spec_method_of(s@),
{
    let u = to_upper_bytes(s);
    if tok_eq3(&u, 71, 69, 84) {
        Some(HttpRequestMethod::Get)
    } else if tok_eq4(&u, 72, 69, 65, 68) {
        Some(HttpRequestMethod::Head)
    } else if tok_eq4(&u, 80, 79, 83, 84) {
        Some(HttpRequestMethod::Post)
    } else if tok_eq3(&u, 80, 85, 84) {
        Some(HttpRequestMethod::Put)
    } else if tok_eq6(&u, 68, 69, 76, 69, 84, 69) {
        Some(HttpRequestMethod::Delete)
    } else if tok_eq7(&u, 67, 79, 78, 78, 69, 67, 84) {
        Some(HttpRequestMethod::Connect)
    } else if tok_eq7(&u, 79, 80, 84, 73, 79, 78, 83) {
        Some(HttpRequestMethod::Options)
    } else if tok_eq5(&u, 84, 82, 65, 67, 69) {
        Some(HttpRequestMethod::Trace)
    } else if tok_eq5(&u, 80, 65, 84, 67, 72) {
        Some(HttpRequestMethod::Patch)
    } else {
        None
    }
}

} // verus!
