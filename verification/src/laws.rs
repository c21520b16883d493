//! Laws the tokenizers obey, stated over the spec-level parse that every
//! executable entry point is proved against.

use vstd::prelude::*;

use crate::method::HttpRequestMethod;
use crate::method::spec_method_of;
use crate::method::spec_upper;
use crate::method::spec_upper_byte;
use crate::request::HttpParseError;
use crate::request::lemma_header_block_end_in_bounds;
use crate::request::spec_content_length_key;
use crate::request::spec_declared_length;
use crate::request::spec_header_block;
use crate::request::spec_header_line;
use crate::request::spec_parse;
use crate::request::spec_start_line;
use crate::scan::lemma_line_next_bounds;
use crate::scan::lemma_spec_find;
use crate::scan::lemma_spec_find_sep;
use crate::scan::lemma_spec_skip;
use crate::scan::spec_find;
use crate::scan::spec_find_sep;
use crate::scan::spec_skip;
use crate::scan::spec_line_content;
use crate::scan::spec_line_next;
use crate::scan::spec_sep_at;

verus! {

/// A token that names a method holds no space: its uppercase image equals a
/// method name, and method names are all letters.
proof fn lemma_method_token_no_space(tok: Seq<u8>)
    requires
        spec_method_of(tok) is Some,
    ensures
        forall|i: int| 0 <= i < tok.len() ==> tok[i] != 32,
{
    assert forall|i: int| 0 <= i < tok.len() implies tok[i] != 32 by {
        let u = spec_upper(tok);
        assert(u[i] == spec_upper_byte(tok[i]));
        if u == seq![71u8, 69u8, 84u8] {
            assert(u[0] == 71 && u[1] == 69 && u[2] == 84);
        } else if u == seq![72u8, 69u8, 65u8, 68u8] {
            assert(u[0] == 72 && u[1] == 69 && u[2] == 65 && u[3] == 68);
        } else if u == seq![80u8, 79u8, 83u8, 84u8] {
            assert(u[0] == 80 && u[1] == 79 && u[2] == 83 && u[3] == 84);
        } else if u == seq![80u8, 85u8, 84u8] {
            assert(u[0] == 80 && u[1] == 85 && u[2] == 84);
        } else if u == seq![68u8, 69u8, 76u8, 69u8, 84u8, 69u8] {
            assert(u[0] == 68 && u[1] == 69 && u[2] == 76 && u[3] == 69 && u[4] == 84 && u[5]
                == 69);
        } else if u == seq![67u8, 79u8, 78u8, 78u8, 69u8, 67u8, 84u8] {
            assert(u[0] == 67 && u[1] == 79 && u[2] == 78 && u[3] == 78 && u[4] == 69 && u[5]
                == 67 && u[6] == 84);
        } else if u == seq![79u8, 80u8, 84u8, 73u8, 79u8, 78u8, 83u8] {
            assert(u[0] == 79 && u[1] == 80 && u[2] == 84 && u[3] == 73 && u[4] == 79 && u[5]
                == 78 && u[6] == 83);
        } else if u == seq![84u8, 82u8, 65u8, 67u8, 69u8] {
            assert(u[0] == 84 && u[1] == 82 && u[2] == 65 && u[3] == 67 && u[4] == 69);
        } else if u == seq![80u8, 65u8, 84u8, 67u8, 72u8] {
            assert(u[0] == 80 && u[1] == 65 && u[2] == 84 && u[3] == 67 && u[4] == 72);
        } else {
            assert(spec_method_of(tok) is None);
        }
        assert(u.len() == tok.len());
        assert(u.len() <= 7);
        assert(i == 0 || i == 1 || i == 2 || i == 3 || i == 4 || i == 5 || i == 6);
        assert(u[i] != 32);
        assert(spec_upper_byte(32) == 32);
    }
}

/// For every start line `"<method> <target>"` whose first token names a
/// method case-insensitively and whose target is a real token (nonempty,
/// holding no space), the start-line tokenizer returns exactly that method
/// and the literal target bytes.
pub proof fn lemma_start_line_tokenizes(tok: Seq<u8>, target: Seq<u8>, m: HttpRequestMethod)
    requires
        spec_method_of(tok) == Some(m),
        target.len() > 0,
        forall|i: int| 0 <= i < target.len() ==> target[i] != 32,
    ensures
        spec_start_line(tok + seq![32u8] + target) == Result::<
            (HttpRequestMethod, Seq<u8>),
            HttpParseError,
        >::Ok((m, target)),
{
    let line = tok + seq![32u8] + target;
    lemma_method_token_no_space(tok);
    lemma_spec_find(line, 0, 32);
    let sp = spec_find(line, 0, 32);
    assert(line[tok.len() as int] == 32);
    assert(sp == tok.len());
    assert(line.subrange(0, sp) =~= tok);
    lemma_spec_skip(line, sp, 32);
    let ts = spec_skip(line, sp, 32);
    assert(line[sp + 1] == target[0]);
    assert(ts == sp + 1);
    lemma_spec_find(line, ts, 32);
    let e = spec_find(line, ts, 32);
    assert forall|j: int| ts <= j < line.len() implies line[j] != 32 by {
        assert(line[j] == target[j - ts]);
    }
    assert(e == line.len());
    assert(line.subrange(ts, e) =~= target);
}

/// A start line whose first token names a method and which holds nothing but
/// spaces after that token — a trailing space, several, or none at all — has
/// no second token, so the target defaults to `/`.
pub proof fn lemma_missing_target_defaults(tok: Seq<u8>, pad: Seq<u8>, m: HttpRequestMethod)
    requires
        spec_method_of(tok) == Some(m),
        forall|i: int| 0 <= i < pad.len() ==> pad[i] == 32,
    ensures
        spec_start_line(tok + pad) == Result::<(HttpRequestMethod, Seq<u8>), HttpParseError>::Ok(
            (m, seq![47u8]),
        ),
{
    let line = tok + pad;
    lemma_method_token_no_space(tok);
    lemma_spec_find(line, 0, 32);
    let sp = spec_find(line, 0, 32);
    if pad.len() == 0 {
        assert(sp == line.len());
    } else {
        assert(line[tok.len() as int] == 32);
        assert(sp == tok.len());
    }
    assert(line.subrange(0, sp) =~= tok);
    lemma_spec_skip(line, sp, 32);
    let ts = spec_skip(line, sp, 32);
    if ts < line.len() {
        assert(line[ts] == pad[ts - tok.len()]);
    }
    assert(ts == line.len());
}

/// A start line holding no space fails with `MalformedStartLine` whenever its
/// single token is not a method name. (A bare known method name is the one
/// exception: it parses with the default `/` target.)
pub proof fn lemma_no_space_line_malformed(line: Seq<u8>)
    requires
        forall|i: int| 0 <= i < line.len() ==> line[i] != 32,
        spec_method_of(line) is None,
    ensures
        spec_start_line(line) == Result::<(HttpRequestMethod, Seq<u8>), HttpParseError>::Err(
            HttpParseError::MalformedStartLine,
        ),
{
    lemma_spec_find(line, 0, 32);
    assert(spec_find(line, 0, 32) == line.len());
    assert(line.subrange(0, line.len() as int) =~= line);
}

/// For every line `"Name: Value"` whose name holds no `": "` separator, the
/// header tokenizer returns exactly `(Name, Value)`.
pub proof fn lemma_header_line_tokenizes(name: Seq<u8>, value: Seq<u8>)
    requires
        forall|i: int|
            0 <= i && i + 1 < name.len() ==> !(#[trigger] name[i] == 58 && name[i + 1] == 32),
    ensures
        spec_header_line(name + seq![58u8, 32u8] + value) == Result::<
            (Seq<u8>, Seq<u8>),
            HttpParseError,
        >::Ok((name, value)),
{
    let line = name + seq![58u8, 32u8] + value;
    lemma_spec_find_sep(line, 0);
    let p = spec_find_sep(line, 0);
    assert(spec_sep_at(line, name.len() as int));
    assert forall|j: int| 0 <= j < name.len() implies !spec_sep_at(line, j) by {
        assert(line[j] == name[j]);
        if j + 1 < name.len() {
            assert(line[j + 1] == name[j + 1]);
        } else {
            assert(line[j + 1] == 58);
        }
    }
    assert(p == name.len());
    assert(line.subrange(0, p) =~= name);
    assert(line.subrange(p + 2, line.len() as int) =~= value);
}

/// Reassembling a tokenized header as `"Name: Value"` reproduces the original
/// line: the tokenizer loses nothing.
pub proof fn lemma_header_round_trip(line: Seq<u8>, name: Seq<u8>, value: Seq<u8>)
    requires
        spec_header_line(line) == Result::<(Seq<u8>, Seq<u8>), HttpParseError>::Ok((name, value)),
    ensures
        name + seq![58u8, 32u8] + value == line,
{
    lemma_spec_find_sep(line, 0);
    let p = spec_find_sep(line, 0);
    assert(name == line.subrange(0, p));
    assert(value == line.subrange(p + 2, line.len() as int));
    assert(name + seq![58u8, 32u8] + value =~= line);
}

/// A line in which no colon is immediately followed by a space fails with
/// `MalformedHeader`.
pub proof fn lemma_header_line_malformed(line: Seq<u8>)
    requires
        forall|i: int|
            0 <= i && i + 1 < line.len() ==> !(#[trigger] line[i] == 58 && line[i + 1] == 32),
    ensures
        spec_header_line(line) == Result::<(Seq<u8>, Seq<u8>), HttpParseError>::Err(
            HttpParseError::MalformedHeader,
        ),
{
    lemma_spec_find_sep(line, 0);
    assert(spec_find_sep(line, 0) == line.len());
}

/// Every line of `s` from the line start `pos` to the end of input is a
/// nonempty, well-formed header line — so the stream ends with no blank
/// terminator in sight.
pub open spec fn spec_lines_all_headers(s: Seq<u8>, pos: int) -> bool
    decreases s.len() - pos,
    when 0 <= pos <= s.len()
    via spec_lines_all_headers_decreases
{
    if pos >= s.len() {
        true
    } else {
        let content = spec_line_content(s, pos);
        &&& content.len() != 0
        &&& spec_header_line(content) is Ok
        &&& spec_lines_all_headers(s, spec_line_next(s, pos))
    }
}

#[via_fn]
proof fn spec_lines_all_headers_decreases(s: Seq<u8>, pos: int) {
    lemma_line_next_bounds(s, pos);
}

/// A header block whose every line up to the end of input is a nonempty,
/// well-formed header line fails with `MissingHeaderTerminator`, whatever has
/// been accumulated so far.
pub proof fn lemma_unterminated_block(s: Seq<u8>, pos: int, acc: Map<Seq<u8>, Seq<u8>>)
    requires
        0 <= pos <= s.len(),
        spec_lines_all_headers(s, pos),
    ensures
        spec_header_block(s, pos, acc) == Result::<(Map<Seq<u8>, Seq<u8>>, int), HttpParseError>::Err(
            HttpParseError::MissingHeaderTerminator,
        ),
    decreases s.len() - pos,
{
    if pos < s.len() {
        lemma_line_next_bounds(s, pos);
        let content = spec_line_content(s, pos);
        let next = spec_line_next(s, pos);
        let hl = spec_header_line(content);
        assert(hl is Ok);
        lemma_unterminated_block(s, next, acc.insert(hl->Ok_0.0, hl->Ok_0.1));
    }
}

/// A request whose header block ends exactly at the end of input and declares
/// no `Content-Length` parses successfully with an empty body.
pub proof fn lemma_no_length_means_empty_body(s: Seq<u8>, hm: Map<Seq<u8>, Seq<u8>>)
    requires
        s.len() > 0,
        spec_start_line(spec_line_content(s, 0)) is Ok,
        spec_header_block(s, spec_line_next(s, 0), Map::empty()) == Result::<
            (Map<Seq<u8>, Seq<u8>>, int),
            HttpParseError,
        >::Ok((hm, s.len() as int)),
        !hm.contains_key(spec_content_length_key()),
    ensures
        spec_parse(s) is Ok,
        spec_parse(s)->Ok_0.body == Seq::<u8>::empty(),
{
    assert(s.subrange(s.len() as int, s.len() as int) =~= Seq::<u8>::empty());
}

/// A request that parses has a body at least as long as its declared
/// `Content-Length`: fewer available bytes fail as truncation instead.
pub proof fn lemma_body_covers_declared_length(s: Seq<u8>)
    requires
        spec_parse(s) is Ok,
    ensures
        spec_declared_length(spec_parse(s)->Ok_0.headers) <= spec_parse(s)->Ok_0.body.len(),
{
    assert(s.len() > 0);
    lemma_line_next_bounds(s, 0);
    lemma_header_block_end_in_bounds(s, spec_line_next(s, 0), Map::empty());
}

/// Parsing is a pure function of the input bytes: two streams with identical
/// content parse to the same result, so two parses of the same fixed byte
/// sequence yield structurally equal request values.
pub proof fn lemma_parse_deterministic(a: Seq<u8>, b: Seq<u8>)
    requires
        a == b,
    ensures
        spec_parse(a) == spec_parse(b),
{
}

} // verus!
