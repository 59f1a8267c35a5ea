//! Model of the text buffer: a rope indexed by lines, chars and bytes.
//!
//! The mathematical model of a buffer is its character sequence
//! (`Seq<char>`).  Line and byte coordinates are defined by spec functions
//! over that sequence: a line break is exactly the character `'\n'`, and a
//! character occupies `char_utf8_len` bytes in the UTF-8 encoding.  The rope
//! itself comes from the `ropey` crate and is reached only through the
//! trusted wrappers at the bottom of this file, whose contracts restate
//! `ropey`'s documented index conversions over this model.

use vstd::prelude::*;

verus! {

/// Number of bytes of the UTF-8 encoding of one character.
pub open spec fn char_utf8_len(c: char) -> int {
    if (c as u32) < 0x80 {
        1
    } else if (c as u32) < 0x800 {
        2
    } else if (c as u32) < 0x10000 {
        3
    } else {
        4
    }
}

/// Number of bytes of the UTF-8 encoding of a character sequence.
pub open spec fn byte_len(s: Seq<char>) -> int
    decreases s.len(),
{
    if s.len() == 0 {
        0
    } else {
        char_utf8_len(s[0]) + byte_len(s.drop_first())
    }
}

/// Number of line breaks (`'\n'` characters) in a character sequence.
pub open spec fn break_count(s: Seq<char>) -> int
    decreases s.len(),
{
    if s.len() == 0 {
        0
    } else {
        (if s[0] == '\n' {
            1int
        } else {
            0int
        }) + break_count(s.drop_first())
    }
}

/// Char index of the first character of line `l` (0-indexed); one past the
/// end of the text when `l` is one past the last line.
pub open spec fn line_start(s: Seq<char>, l: int) -> int
    decreases s.len(),
{
    if l <= 0 || s.len() == 0 {
        0
    } else if s[0] == '\n' {
        1 + line_start(s.drop_first(), l - 1)
    } else {
        1 + line_start(s.drop_first(), l)
    }
}

/// Index of the character whose UTF-8 encoding contains byte `b`; the
/// character count itself when `b` is the total byte length.
pub open spec fn char_of_byte(s: Seq<char>, b: int) -> int
    decreases s.len(),
{
    if s.len() == 0 {
        0
    } else if b < char_utf8_len(s[0]) {
        0
    } else {
        1 + char_of_byte(s.drop_first(), b - char_utf8_len(s[0]))
    }
}

/// Byte offset of the character at char index `c`.
pub open spec fn byte_of_char(s: Seq<char>, c: int) -> int {
    byte_len(s.take(c))
}

/// True when byte offset `b` falls on a character boundary of `s`.
pub open spec fn is_boundary(s: Seq<char>, b: int) -> bool {
    byte_of_char(s, char_of_byte(s, b)) == b
}

/// The line/column pair (0-indexed; column counted in characters) of the
/// character containing byte offset `b`.
pub open spec fn byte_to_point(s: Seq<char>, b: int) -> (int, int) {
    let c = char_of_byte(s, b);
    let l = break_count(s.take(c));
    (l, c - line_start(s, l))
}

/// Byte offset addressed by a (line, column) query, or `None` when the query
/// lies outside the buffer extents.
pub open spec fn point_to_byte(s: Seq<char>, line: int, col: int) -> Option<int> {
    if line > break_count(s) {
        None
    } else if line_start(s, line) + col > s.len() {
        None
    } else {
        Some(byte_of_char(s, line_start(s, line) + col))
    }
}

/// True when `a..b` is a byte range of `s` aligned to character boundaries.
pub open spec fn valid_span(s: Seq<char>, a: int, b: int) -> bool {
    0 <= a <= b <= byte_len(s) && is_boundary(s, a) && is_boundary(s, b)
}

/// The characters whose UTF-8 bytes lie in the byte range `a..b` of `s`.
pub open spec fn span_text(s: Seq<char>, a: int, b: int) -> Seq<char> {
    s.subrange(char_of_byte(s, a), char_of_byte(s, b))
}

pub(crate) proof fn lemma_byte_len_nonneg(s: Seq<char>)
    ensures
        byte_len(s) >= s.len(),
    decreases s.len(),
{
    if s.len() > 0 {
        lemma_byte_len_nonneg(s.drop_first());
    }
}

/// `byte_len` agrees with the UTF-8 encoding of the standard library's
/// model: it is the length of `encode_utf8` of the same characters.
pub proof fn lemma_byte_len_is_utf8(s: Seq<char>)
    ensures
        byte_len(s) == vstd::utf8::encode_utf8(s).len(),
    decreases s.len(),
{
    if s.len() > 0 {
        vstd::utf8::char_is_scalar(s[0]);
        assert(vstd::utf8::encode_scalar(s[0] as u32).len() == char_utf8_len(s[0]));
        lemma_byte_len_is_utf8(s.drop_first());
    }
}

/// UTF-8 length is additive over concatenation.
pub proof fn lemma_byte_len_concat(x: Seq<char>, y: Seq<char>)
    ensures
        byte_len(x + y) == byte_len(x) + byte_len(y),
    decreases x.len(),
{
    if x.len() == 0 {
        assert(x + y =~= y);
    } else {
        assert((x + y).drop_first() =~= x.drop_first() + y);
        assert((x + y)[0] == x[0]);
        lemma_byte_len_concat(x.drop_first(), y);
    }
}

pub(crate) proof fn lemma_line_start_bounds(s: Seq<char>, l: int)
    ensures
        0 <= line_start(s, l) <= s.len(),
    decreases s.len(),
{
    if !(l <= 0 || s.len() == 0) {
        if s[0] == '\n' {
            lemma_line_start_bounds(s.drop_first(), l - 1);
        } else {
            lemma_line_start_bounds(s.drop_first(), l);
        }
    }
}

pub(crate) proof fn lemma_char_of_byte_bounds(s: Seq<char>, b: int)
    ensures
        0 <= char_of_byte(s, b) <= s.len(),
    decreases s.len(),
{
    if s.len() > 0 && !(b < char_utf8_len(s[0])) {
        lemma_char_of_byte_bounds(s.drop_first(), b - char_utf8_len(s[0]));
    }
}

pub(crate) proof fn lemma_break_count_take_le(s: Seq<char>, c: int)
    requires
        0 <= c <= s.len(),
    ensures
        0 <= break_count(s.take(c)) <= break_count(s),
    decreases s.len(),
{
    if s.len() == 0 {
        assert(s.take(c) =~= s);
    } else if c == 0 {
        assert(s.take(0) =~= Seq::<char>::empty());
        lemma_break_count_nonneg(s);
    } else {
        assert(s.take(c).drop_first() =~= s.drop_first().take(c - 1));
        lemma_break_count_take_le(s.drop_first(), c - 1);
        assert(break_count(s.take(c)) == (if s[0] == '\n' {
            1int
        } else {
            0int
        }) + break_count(s.drop_first().take(c - 1)));
    }
}

proof fn lemma_break_count_nonneg(s: Seq<char>)
    ensures
        break_count(s) >= 0,
    decreases s.len(),
{
    if s.len() > 0 {
        lemma_break_count_nonneg(s.drop_first());
    }
}

/// The start of the line containing char `c` lies at or before `c`.
pub(crate) proof fn lemma_line_start_of_containing_line(s: Seq<char>, c: int)
    requires
        0 <= c <= s.len(),
    ensures
        line_start(s, break_count(s.take(c))) <= c,
    decreases s.len(),
{
    if s.len() == 0 || c == 0 {
        assert(s.take(0) =~= Seq::<char>::empty());
    } else {
        assert(s.take(c).drop_first() =~= s.drop_first().take(c - 1));
        lemma_line_start_of_containing_line(s.drop_first(), c - 1);
        lemma_break_count_nonneg(s.drop_first().take(c - 1));
    }
}

#[verifier::external_type_specification]
#[verifier::external_body]
pub struct ExRope(ropey::Rope);

/// The character sequence a rope holds.  Every wrapper below states its
/// effect over this view, so ropes built through them have a known text.
pub uninterp spec fn rope_text(r: ropey::Rope) -> Seq<char>;

/// Relies on `ropey::Rope::from_str`: builds a rope holding the given text.
#[verifier::external_body]
pub(crate) fn rope_from_str(s: &str) -> (r: ropey::Rope)
    ensures
        rope_text(r) == s@,
{
    ropey::Rope::from_str(s)
}

/// Relies on `ropey::Rope::len_chars`: the number of characters.
#[verifier::external_body]
pub(crate) fn rope_len_chars(r: &ropey::Rope) -> (n: usize)
    ensures
        n == rope_text(*r).len(),
{
    r.len_chars()
}

/// Relies on `ropey::Rope::len_bytes`: the UTF-8 length of the text.
#[verifier::external_body]
pub(crate) fn rope_len_bytes(r: &ropey::Rope) -> (n: usize)
    ensures
        n == byte_len(rope_text(*r)),
{
    r.len_bytes()
}

/// Relies on `ropey::Rope::len_lines`: one more than the number of breaks
/// (with `ropey`'s default line-break features disabled, a break is `'\n'`).
#[verifier::external_body]
pub(crate) fn rope_len_lines(r: &ropey::Rope) -> (n: usize)
    ensures
        n == break_count(rope_text(*r)) + 1,
{
    r.len_lines()
}

/// Relies on `ropey::Rope::line_to_char`: char index of the start of a line.
#[verifier::external_body]
pub(crate) fn rope_line_to_char(r: &ropey::Rope, line: usize) -> (c: usize)
    requires
        line <= break_count(rope_text(*r)) + 1,
    ensures
        c == line_start(rope_text(*r), line as int),
{
    r.line_to_char(line)
}

/// Relies on `ropey::Rope::char_to_line`: the line containing a character,
/// equivalently the number of breaks before it.
#[verifier::external_body]
pub(crate) fn rope_char_to_line(r: &ropey::Rope, c: usize) -> (l: usize)
    requires
        c <= rope_text(*r).len(),
    ensures
        l == break_count(rope_text(*r).take(c as int)),
{
    r.char_to_line(c)
}

/// Relies on `ropey::Rope::char_to_byte`: byte offset of a character.
#[verifier::external_body]
pub(crate) fn rope_char_to_byte(r: &ropey::Rope, c: usize) -> (b: usize)
    requires
        c <= rope_text(*r).len(),
    ensures
        b == byte_of_char(rope_text(*r), c as int),
{
    r.char_to_byte(c)
}

/// Relies on `ropey::Rope::byte_to_char`: the character containing a byte.
#[verifier::external_body]
pub(crate) fn rope_byte_to_char(r: &ropey::Rope, b: usize) -> (c: usize)
    requires
        b <= byte_len(rope_text(*r)),
    ensures
        c == char_of_byte(rope_text(*r), b as int),
{
    r.byte_to_char(b)
}

/// Relies on `ropey::Rope::insert`: splices text in at a char index.
#[verifier::external_body]
pub(crate) fn rope_insert(r: &mut ropey::Rope, c: usize, s: &str)
    requires
        c <= rope_text(*old(r)).len(),
    ensures
        rope_text(*final(r)) == rope_text(*old(r)).take(c as int) + s@ + rope_text(*old(r)).skip(
            c as int,
        ),
{
    r.insert(c, s)
}

/// Relies on `ropey::Rope::remove`: deletes a char range.
#[verifier::external_body]
pub(crate) fn rope_remove(r: &mut ropey::Rope, start: usize, end: usize)
    requires
        start <= end <= rope_text(*old(r)).len(),
    ensures
        rope_text(*final(r)) == rope_text(*old(r)).take(start as int) + rope_text(*old(r)).skip(
            end as int,
        ),
{
    r.remove(start..end)
}

/// Relies on `ropey::Rope::byte_slice` and `RopeSlice::to_string` (via
/// `String::from`): the characters whose bytes lie in a boundary-aligned
/// byte range.
#[verifier::external_body]
pub(crate) fn rope_byte_slice_string(r: &ropey::Rope, a: usize, b: usize) -> (s: String)
    requires
        a <= b <= byte_len(rope_text(*r)),
        is_boundary(rope_text(*r), a as int),
        is_boundary(rope_text(*r), b as int),
    ensures
        s@ == rope_text(*r).subrange(
            char_of_byte(rope_text(*r), a as int),
            char_of_byte(rope_text(*r), b as int),
        ),
{
    String::from(r.byte_slice(a..b))
}

/// Relies on `String::from::<ropey::RopeSlice>`: the whole text as a string.
#[verifier::external_body]
pub(crate) fn rope_to_string(r: &ropey::Rope) -> (s: String)
    ensures
        s@ == rope_text(*r),
{
    String::from(r.slice(..))
}

/// Byte offset addressed by a (line, column) query against the buffer, or
/// `None` when the line or column exceeds the buffer extents.
pub fn to_byte_offset(rope: &ropey::Rope, line: usize, col: usize) -> (r: Option<usize>)
    ensures
        match r {
            Some(b) => point_to_byte(rope_text(*rope), line as int, col as int) == Some(b as int),
            None => point_to_byte(rope_text(*rope), line as int, col as int) is None,
        },
{
    let lines = rope_len_lines(rope);
    if line >= lines {
        return None;
    }
    let ls = rope_line_to_char(rope, line);
    let n = rope_len_chars(rope);
    proof {
        lemma_line_start_bounds(rope_text(*rope), line as int);
    }
    if col > n - ls {
        return None;
    }
    Some(rope_char_to_byte(rope, ls + col))
}

/// The text of a byte span of the buffer, or `None` when the span is not a
/// boundary-aligned byte range of it.
pub fn span_string(rope: &ropey::Rope, a: usize, b: usize) -> (r: Option<String>)
    ensures
        match r {
            Some(t) => valid_span(rope_text(*rope), a as int, b as int) && t@ == span_text(
                rope_text(*rope),
                a as int,
                b as int,
            ),
            None => !valid_span(rope_text(*rope), a as int, b as int),
        },
{
    let nb = rope_len_bytes(rope);
    if b > nb || a > b {
        return None;
    }
    let ca = rope_byte_to_char(rope, a);
    let cb = rope_byte_to_char(rope, b);
    proof {
        lemma_char_of_byte_bounds(rope_text(*rope), a as int);
        lemma_char_of_byte_bounds(rope_text(*rope), b as int);
    }
    let ba = rope_char_to_byte(rope, ca);
    let bb = rope_char_to_byte(rope, cb);
    if ba != a || bb != b {
        return None;
    }
    Some(rope_byte_slice_string(rope, a, b))
}

/// The (line, column) position of a byte offset, or `None` when the offset
/// lies beyond the end of the buffer.
pub fn byte_to_position(rope: &ropey::Rope, b: usize) -> (r: Option<(usize, usize)>)
    ensures
        match r {
            Some(p) => b <= byte_len(rope_text(*rope)) && byte_to_point(rope_text(*rope), b as int)
                == (p.0 as int, p.1 as int),
            None => b > byte_len(rope_text(*rope)),
        },
{
    let nb = rope_len_bytes(rope);
    if b > nb {
        return None;
    }
    let c = rope_byte_to_char(rope, b);
    proof {
        lemma_char_of_byte_bounds(rope_text(*rope), b as int);
    }
    let l = rope_char_to_line(rope, c);
    proof {
        lemma_break_count_take_le(rope_text(*rope), c as int);
        lemma_line_start_of_containing_line(rope_text(*rope), c as int);
    }
    let ls = rope_line_to_char(rope, l);
    Some((l, c - ls))
}

} // verus!
