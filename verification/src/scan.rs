//! Byte-level scanning primitives shared by the tokenizers: first-occurrence
//! search, the line model of the input stream, and decimal parsing for the
//! `Content-Length` value.
//!
//! A line runs from a position up to the first line feed (byte 10); a carriage
//! return (byte 13) just before the line feed is not part of the line's
//! content. A final line without a terminator runs to the end of the input.

use vstd::prelude::*;

verus! {

/// The least index `i` in `from..s.len()` with `s[i] == b`, or `s.len()` when
/// no such index exists.
pub open spec fn spec_find(s: Seq<u8>, from: int, b: u8) -> int
    decreases s.len() - from,
{
    if from < 0 || from >= s.len() {
        s.len() as int
    } else if s[from] == b {
        from
    } else {
        spec_find(s, from + 1, b)
    }
}

/// `spec_find` returns the least index in range holding `b`, or the length.
pub proof fn lemma_spec_find(s: Seq<u8>, from: int, b: u8)
    requires
        0 <= from <= s.len(),
    ensures
        from <= spec_find(s, from, b) <= s.len(),
        spec_find(s, from, b) < s.len() ==> s[spec_find(s, from, b)] == b,
        forall|j: int| from <= j < spec_find(s, from, b) ==> s[j] != b,
    decreases s.len() - from,
{
    if from < s.len() && s[from] != b {
        lemma_spec_find(s, from + 1, b);
    }
}

/// The least index `i` in `from..s.len()` with `s[i] != b`, or `s.len()` when
/// the run of `b` reaches the end of `s`.
pub open spec fn spec_skip(s: Seq<u8>, from: int, b: u8) -> int
    decreases s.len() - from,
{
    if from < 0 || from >= s.len() {
        s.len() as int
    } else if s[from] != b {
        from
    } else {
        spec_skip(s, from + 1, b)
    }
}

/// `spec_skip` returns the least index in range past the run of `b`, or the
/// length.
pub proof fn lemma_spec_skip(s: Seq<u8>, from: int, b: u8)
    requires
        0 <= from <= s.len(),
    ensures
        from <= spec_skip(s, from, b) <= s.len(),
        spec_skip(s, from, b) < s.len() ==> s[spec_skip(s, from, b)] != b,
        forall|j: int| from <= j < spec_skip(s, from, b) ==> s[j] == b,
    decreases s.len() - from,
{
    if from < s.len() && s[from] == b {
        lemma_spec_skip(s, from + 1, b);
    }
}

/// First index in `s` at or after `from` whose byte differs from `b`.
pub fn skip_byte(s: &[u8], from: usize, b: u8) -> (r: usize)
    requires
        from <= s@.len(),
    ensures
        r == spec_skip(s@, from as int, b),
{
    let mut i: usize = from;
    while i < s.len()
        invariant
            from <= i <= s@.len(),
            spec_skip(s@, from as int, b) == spec_skip(s@, i as int, b),
        decreases s@.len() - i,
    {
        if s[i] != b {
            return i;
        }
        i += 1;
    }
    i
}

/// Whether a header separator (a colon, byte 58, immediately followed by a
/// space, byte 32) starts at index `i` of `s`.
pub open spec fn spec_sep_at(s: Seq<u8>, i: int) -> bool {
    0 <= i && i + 1 < s.len() && s[i] == 58 && s[i + 1] == 32
}

/// The least index at or after `from` where a header separator starts, or
/// `s.len()` when no such index exists.
pub open spec fn spec_find_sep(s: Seq<u8>, from: int) -> int
    decreases s.len() - from,
{
    if from < 0 || from >= s.len() {
        s.len() as int
    } else if spec_sep_at(s, from) {
        from
    } else {
        spec_find_sep(s, from + 1)
    }
}

/// `spec_find_sep` returns the least index in range where a separator starts,
/// or the length.
pub proof fn lemma_spec_find_sep(s: Seq<u8>, from: int)
    requires
        0 <= from <= s.len(),
    ensures
        from <= spec_find_sep(s, from) <= s.len(),
        spec_find_sep(s, from) < s.len() ==> spec_sep_at(s, spec_find_sep(s, from)),
        forall|j: int| from <= j < spec_find_sep(s, from) ==> !spec_sep_at(s, j),
    decreases s.len() - from,
{
    if from < s.len() && !spec_sep_at(s, from) {
        lemma_spec_find_sep(s, from + 1);
    }
}

/// The index of the line feed ending the line that starts at `pos`, or
/// `s.len()` when the line is unterminated.
pub open spec fn spec_line_end(s: Seq<u8>, pos: int) -> int {
    spec_find(s, pos, 10)
}

/// The content of the line starting at `pos`: the bytes before its line feed,
/// less one trailing carriage return. An unterminated final line keeps a
/// trailing carriage return, since no line feed followed it.
pub open spec fn spec_line_content(s: Seq<u8>, pos: int) -> Seq<u8>
    recommends
        0 <= pos <= s.len(),
{
    let e = spec_line_end(s, pos);
    if e < s.len() {
        let raw = s.subrange(pos, e);
        if raw.len() > 0 && raw[raw.len() - 1] == 13 {
            raw.drop_last()
        } else {
            raw
        }
    } else {
        s.subrange(pos, s.len() as int)
    }
}

/// The position just past the line that starts at `pos`.
pub open spec fn spec_line_next(s: Seq<u8>, pos: int) -> int
    recommends
        0 <= pos <= s.len(),
{
    let e = spec_line_end(s, pos);
    if e < s.len() {
        e + 1
    } else {
        s.len() as int
    }
}

/// Every line except an empty trailing one moves the position forward.
pub proof fn lemma_line_next_bounds(s: Seq<u8>, pos: int)
    requires
        0 <= pos <= s.len(),
    ensures
        pos <= spec_line_next(s, pos) <= s.len(),
        pos < s.len() ==> pos < spec_line_next(s, pos),
{
    lemma_spec_find(s, pos, 10);
}

/// First occurrence of the byte `b` in `s` at or after `from`.
pub fn find_byte(s: &[u8], from: usize, b: u8) -> (r: usize)
    requires
        from <= s@.len(),
    ensures
        r == spec_find(s@, from as int, b),
{
    let mut i: usize = from;
    while i < s.len()
        invariant
            from <= i <= s@.len(),
            spec_find(s@, from as int, b) == spec_find(s@, i as int, b),
        decreases s@.len() - i,
    {
        if s[i] == b {
            return i;
        }
        i += 1;
    }
    i
}

/// First occurrence of the header separator in `s` at or after `from`.
pub fn find_sep(s: &[u8], from: usize) -> (r: usize)
    requires
        from <= s@.len(),
    ensures
        r == spec_find_sep(s@, from as int),
{
    let mut i: usize = from;
    while i < s.len()
        invariant
            from <= i <= s@.len(),
            spec_find_sep(s@, from as int) == spec_find_sep(s@, i as int),
        decreases s@.len() - i,
    {
        if s[i] == 58 && i + 1 < s.len() && s[i + 1] == 32 {
            return i;
        }
        i += 1;
    }
    i
}

/// Whether two byte slices hold the same bytes.
pub fn bytes_equal(a: &[u8], b: &[u8]) -> (r: bool)
    ensures
        r <==> a@ == b@,
{
    if a.len() != b.len() {
        return false;
    }
    let mut i: usize = 0;
    while i < a.len()
        invariant
            0 <= i <= a@.len(),
            a@.len() == b@.len(),
            forall|j: int| 0 <= j < i ==> a@[j] == b@[j],
        decreases a@.len() - i,
    {
        if a[i] != b[i] {
            return false;
        }
        i += 1;
    }
    proof {
        assert(a@ =~= b@);
    }
    true
}

/// Whether a byte is an ASCII decimal digit.
pub open spec fn spec_is_digit(b: u8) -> bool {
    48 <= b && b <= 57
}

/// Whether every byte of `s` is an ASCII decimal digit.
pub open spec fn spec_all_digits(s: Seq<u8>) -> bool {
    forall|i: int| 0 <= i < s.len() ==> spec_is_digit(s[i])
}

/// The value of `s` read as a decimal numeral, most significant digit first.
pub open spec fn spec_decimal_value(s: Seq<u8>) -> int
    decreases s.len(),
{
    if s.len() == 0 {
        0
    } else {
        spec_decimal_value(s.drop_last()) * 10 + (s.last() - 48)
    }
}

/// A digit string's value is non-negative.
pub proof fn lemma_decimal_nonneg(s: Seq<u8>)
    requires
        spec_all_digits(s),
    ensures
        spec_decimal_value(s) >= 0,
    decreases s.len(),
{
    if s.len() > 0 {
        assert(spec_all_digits(s.drop_last()));
        lemma_decimal_nonneg(s.drop_last());
    }
}

/// Extending a digit string on the right never lowers its value.
pub proof fn lemma_decimal_prefix_le(s: Seq<u8>, i: int)
    requires
        spec_all_digits(s),
        0 <= i <= s.len(),
    ensures
        spec_decimal_value(s.subrange(0, i)) <= spec_decimal_value(s),
    decreases s.len() - i,
{
    if i < s.len() {
        let t = s.subrange(0, i + 1);
        assert(t.drop_last() =~= s.subrange(0, i));
        assert(spec_all_digits(s.subrange(0, i)));
        lemma_decimal_nonneg(s.subrange(0, i));
        assert(spec_decimal_value(t) == spec_decimal_value(s.subrange(0, i)) * 10 + (s[i]
            - 48));
        lemma_decimal_prefix_le(s, i + 1);
    } else {
        assert(s.subrange(0, i) =~= s);
    }
}

/// The resolved value of a `Content-Length` header: the decimal value of its
/// raw bytes when they form a nonempty digit string whose value fits in
/// `usize`; otherwise 0, the absent-or-unparsable default.
pub open spec fn spec_length_value(s: Seq<u8>) -> int {
    if s.len() > 0 && spec_all_digits(s) && spec_decimal_value(s) <= usize::MAX as int {
        spec_decimal_value(s)
    } else {
        0
    }
}

/// Reads a raw header value as a non-negative decimal length; anything that is
/// not a digit string fitting in `usize` resolves to 0.
pub fn parse_length_value(v: &[u8]) -> (n: usize)
    ensures
        n as int == spec_length_value(v@),
{
    if v.len() == 0 {
        return 0;
    }
    let mut acc: usize = 0;
    let mut i: usize = 0;
    while i < v.len()
        invariant
            0 <= i <= v@.len(),
            v@.len() > 0,
            forall|j: int| 0 <= j < i ==> spec_is_digit(v@[j]),
            acc as int == spec_decimal_value(v@.subrange(0, i as int)),
        decreases v@.len() - i,
    {
        let b = v[i];
        if !(48 <= b && b <= 57) {
            assert(!spec_all_digits(v@));
            return 0;
        }
        let d = (b - 48) as usize;
        let stepped = match acc.checked_mul(10) {
            Some(t) => t.checked_add(d),
            None => None,
        };
        proof {
            assert(v@.subrange(0, i + 1).drop_last() =~= v@.subrange(0, i as int));
            assert(spec_decimal_value(v@.subrange(0, i + 1)) == acc * 10 + d);
        }
        match stepped {
            Some(t) => {
                acc = t;
            },
            None => {
                // The prefix up to and including this digit already exceeds
                // usize::MAX, so the whole numeral does too.
                proof {
                    if spec_all_digits(v@) {
                        lemma_decimal_prefix_le(v@, i + 1);
                    }
                }
                return 0;
            },
        }
        i += 1;
    }
    proof {
        assert(v@.subrange(0, v@.len() as int) =~= v@);
    }
    acc
}

} // verus!
