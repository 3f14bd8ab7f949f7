//! Source spans and rendered compiler diagnostics.
use vstd::prelude::*;
use vstd::string::StringSliceAdditionalSpecFns;
use vstd::utf8::{
    decode_utf8, encode_utf8, encode_utf8_decode_utf8, encode_utf8_valid_utf8, is_char_boundary,
    is_char_boundary_iff_not_is_continuation_byte, is_char_boundary_start_end_of_seq,
    is_continuation_byte, valid_utf8, valid_utf8_split,
};

use crate::source::SourceId;
use crate::text::{decimal, owned, push_decimal, push_str};
use vstd::string::StrSliceExecFns;

verus! {

#[derive(Clone, Copy, Debug, Default, PartialEq, Eq, Hash, Structural)]
pub struct Span {
    pub source: SourceId,
    pub start: usize,
    pub end: usize,
}

impl Span {
    pub fn new(start: usize, end: usize) -> (span: Span)
        ensures
            span == (Span { source: SourceId(0), start, end }),
    {
        Span { source: SourceId(0), start, end }
    }

    /// The span from the start of `self` to the end of `other`, in the same file.
    pub fn merge(self, other: Span) -> (span: Span)
        requires
            self.source == other.source,
        ensures
            span == (Span { source: self.source, start: self.start, end: other.end }),
    {
        Span { source: self.source, start: self.start, end: other.end }
    }
}

#[derive(Clone, Debug, PartialEq, Eq)]
pub struct Diagnostic {
    pub message: String,
    pub span: Span,
}

// ---------------------------------------------------------------------------------------------
// Positions in UTF-8 text
/// The greatest character boundary at or before `i`.
pub open spec fn floor_boundary(b: Seq<u8>, i: int) -> int
    decreases i,
{
    if i <= 0 {
        0
    } else if is_char_boundary(b, i) {
        i
    } else {
        floor_boundary(b, i - 1)
    }
}

/// Offset just after the last newline before `i`, or zero.
pub open spec fn line_start_before(b: Seq<u8>, i: int) -> int
    decreases i,
{
    if i <= 0 {
        0
    } else if b[i - 1] == 0x0Au8 {
        i
    } else {
        line_start_before(b, i - 1)
    }
}

/// Offset of the first newline at or after `i`, or the length.
pub open spec fn line_end_from(b: Seq<u8>, i: int) -> int
    decreases b.len() - i,
{
    if i >= b.len() {
        b.len() as int
    } else if b[i] == 0x0Au8 {
        i
    } else {
        line_end_from(b, i + 1)
    }
}

/// Number of newline bytes.
pub open spec fn count_newlines(s: Seq<u8>) -> nat
    decreases s.len(),
{
    if s.len() == 0 {
        0
    } else {
        count_newlines(s.drop_last()) + if s.last() == 0x0Au8 {
            1nat
        } else {
            0nat
        }
    }
}

/// Number of bytes that begin a UTF-8 character.
pub open spec fn count_char_starts(s: Seq<u8>) -> nat
    decreases s.len(),
{
    if s.len() == 0 {
        0
    } else {
        count_char_starts(s.drop_last()) + if is_continuation_byte(s.last()) {
            0nat
        } else {
            1nat
        }
    }
}

/// `n` copies of `c`.
pub open spec fn repeat(c: char, n: nat) -> Seq<char> {
    Seq::new(n, |i: int| c)
}

/// One-based line and character column of the character boundary at or before `offset`.
pub open spec fn line_column(b: Seq<u8>, offset: int) -> (nat, nat) {
    let start = floor_boundary(b, if offset < b.len() { offset } else { b.len() as int });
    (
        count_newlines(b.subrange(0, start)) + 1,
        count_char_starts(b.subrange(line_start_before(b, start), start)) + 1,
    )
}

/// The text that `Diagnostic::render` produces for a message and span in a file.
pub open spec fn rendered(path: Seq<char>, b: Seq<u8>, message: Seq<char>, span: Span) -> Seq<
    char,
> {
    let start = floor_boundary(b, if span.start < b.len() { span.start as int } else { b.len() as int });
    let line_start = line_start_before(b, start);
    let line_end = line_end_from(b, start);
    let (line_number, column) = line_column(b, span.start as int);
    let width = span.end - span.start;
    let wanted = if width > 0 { width } else { 0 };
    let available = line_end - start;
    let end = floor_boundary(b, start + if wanted < available { wanted } else { available });
    let marker = count_char_starts(b.subrange(start, end));
    let gutter = decimal(line_number).len();
    path + ":"@ + decimal(line_number) + ":"@ + decimal(column) + ": error: "@ + message + "\n"@
        + repeat(' ', gutter) + " |\n"@ + decimal(line_number) + " | "@ + decode_utf8(
        b.subrange(line_start, line_end),
    ) + "\n"@ + repeat(' ', gutter) + " | "@ + repeat(' ', (column - 1) as nat) + repeat(
        '^',
        if marker > 1 { marker } else { 1 },
    )
}

pub(crate) proof fn lemma_floor_boundary_range(b: Seq<u8>, i: int)
    requires
        valid_utf8(b),
        0 <= i <= b.len(),
    ensures
        0 <= floor_boundary(b, i) <= i,
        is_char_boundary(b, floor_boundary(b, i)),
    decreases i,
{
    is_char_boundary_start_end_of_seq(b);
    if i > 0 && !is_char_boundary(b, i) {
        lemma_floor_boundary_range(b, i - 1);
    }
}

proof fn lemma_floor_boundary_at_least(b: Seq<u8>, i: int, j: int)
    requires
        0 <= j <= i,
        is_char_boundary(b, j),
    ensures
        j <= floor_boundary(b, i),
    decreases i,
{
    if i > 0 && !is_char_boundary(b, i) {
        lemma_floor_boundary_at_least(b, i - 1, j);
    }
}

proof fn lemma_line_start(b: Seq<u8>, i: int)
    requires
        0 <= i <= b.len(),
    ensures
        0 <= line_start_before(b, i) <= i,
        line_start_before(b, i) > 0 ==> b[line_start_before(b, i) - 1] == 0x0Au8,
    decreases i,
{
    if i > 0 && b[i - 1] != 0x0Au8 {
        lemma_line_start(b, i - 1);
    }
}

proof fn lemma_line_end(b: Seq<u8>, i: int)
    requires
        0 <= i <= b.len(),
    ensures
        i <= line_end_from(b, i) <= b.len(),
        line_end_from(b, i) < b.len() ==> b[line_end_from(b, i)] == 0x0Au8,
    decreases b.len() - i,
{
    if i < b.len() && b[i] != 0x0Au8 {
        lemma_line_end(b, i + 1);
    }
}

/// A position that is the end of the bytes, or that holds an ASCII byte, is a character
/// boundary of valid UTF-8.
pub(crate) proof fn lemma_boundary_at_ascii(b: Seq<u8>, i: int)
    requires
        valid_utf8(b),
        0 <= i <= b.len(),
        i == b.len() || b[i] < 0x80,
    ensures
        is_char_boundary(b, i),
{
    is_char_boundary_start_end_of_seq(b);
    if i < b.len() {
        is_char_boundary_iff_not_is_continuation_byte(b, i);
    }
}

/// A position just after an ASCII byte is a character boundary of valid UTF-8.
pub(crate) proof fn lemma_boundary_after_ascii(b: Seq<u8>, i: int)
    requires
        valid_utf8(b),
        0 <= i <= b.len(),
        i == 0 || b[i - 1] < 0x80,
    ensures
        is_char_boundary(b, i),
{
    is_char_boundary_start_end_of_seq(b);
    if 0 < i < b.len() {
        is_char_boundary_iff_not_is_continuation_byte(b, i);
        if is_continuation_byte(b[i]) {
            // A continuation byte cannot follow an ASCII byte.
            is_char_boundary_iff_not_is_continuation_byte(b, i - 1);
            lemma_continuation_follows_lead(b, i);
        }
    }
}

/// In valid UTF-8, a continuation byte follows a leading byte or another continuation byte.
proof fn lemma_continuation_follows_lead(b: Seq<u8>, i: int)
    requires
        valid_utf8(b),
        0 < i < b.len(),
        is_continuation_byte(b[i]),
    ensures
        b[i - 1] >= 0x80,
{
    is_char_boundary_iff_not_is_continuation_byte(b, i);
    if b[i - 1] < 0x80 {
        is_char_boundary_iff_not_is_continuation_byte(b, i - 1);
        // i - 1 is a boundary holding a one-byte character, so i is a boundary too.
        lemma_next_boundary_after_ascii(b, i - 1);
    }
}

proof fn lemma_next_boundary_after_ascii(b: Seq<u8>, i: int)
    requires
        valid_utf8(b),
        0 <= i < b.len(),
        is_char_boundary(b, i),
        b[i] < 0x80,
    ensures
        is_char_boundary(b, i + 1),
{
    valid_utf8_split(b, i);
    let rest = b.subrange(i, b.len() as int);
    assert(rest[0] == b[i]);
    lemma_boundary_after_ascii_prefix(b, i);
}

proof fn lemma_boundary_after_ascii_prefix(b: Seq<u8>, i: int)
    requires
        valid_utf8(b),
        0 <= i < b.len(),
        is_char_boundary(b, i),
        b[i] < 0x80,
    ensures
        is_char_boundary(b, i + 1),
    decreases b.len(),
{
    reveal_with_fuel(is_char_boundary, 2);
    if i > 0 {
        let first_len = vstd::utf8::length_of_first_scalar(b);
        let rest = vstd::utf8::pop_first_scalar(b);
        assert(rest == b.subrange(first_len, b.len() as int));
        assert(rest[i - first_len] == b[i]);
        lemma_boundary_after_ascii_prefix(rest, i - first_len);
    } else {
        reveal_with_fuel(is_char_boundary, 3);
    }
}

pub(crate) fn floor_char_boundary(source: &str, i: usize) -> (start: usize)
    requires
        i <= source.spec_bytes().len(),
    ensures
        start == floor_boundary(source.spec_bytes(), i as int),
{
    let ghost b = source.spec_bytes();
    proof {
        encode_utf8_valid_utf8(source@);
        is_char_boundary_start_end_of_seq(b);
    }
    let mut start = i;
    while start > 0 && !source.is_char_boundary(start)
        invariant
            start <= i,
            floor_boundary(b, i as int) == floor_boundary(b, start as int),
            b == source.spec_bytes(),
        decreases start,
    {
        start -= 1;
    }
    start
}

fn count_newlines_in(bytes: &[u8], from: usize, to: usize) -> (n: usize)
    requires
        from <= to <= bytes@.len(),
    ensures
        n == count_newlines(bytes@.subrange(from as int, to as int)),
        n <= to - from,
{
    let mut n: usize = 0;
    let mut k = from;
    while k < to
        invariant
            from <= k <= to <= bytes@.len(),
            n == count_newlines(bytes@.subrange(from as int, k as int)),
            n <= k - from,
        decreases to - k,
    {
        assert(bytes@.subrange(from as int, k + 1).drop_last() == bytes@.subrange(from as int, k as int));
        if bytes[k] == 0x0Au8 {
            n += 1;
        }
        k += 1;
    }
    n
}

pub(crate) fn count_char_starts_in(bytes: &[u8], from: usize, to: usize) -> (n: usize)
    requires
        from <= to <= bytes@.len(),
    ensures
        n == count_char_starts(bytes@.subrange(from as int, to as int)),
        n <= to - from,
{
    let mut n: usize = 0;
    let mut k = from;
    while k < to
        invariant
            from <= k <= to <= bytes@.len(),
            n == count_char_starts(bytes@.subrange(from as int, k as int)),
            n <= k - from,
        decreases to - k,
    {
        assert(bytes@.subrange(from as int, k + 1).drop_last() == bytes@.subrange(from as int, k as int));
        if !(0x80u8 <= bytes[k] && bytes[k] <= 0xBFu8) {
            n += 1;
        }
        k += 1;
    }
    n
}

fn push_repeat(s: &mut String, c: char, n: usize)
    ensures
        final(s)@ == old(s)@ + repeat(c, n as nat),
{
    let mut k: usize = 0;
    while k < n
        invariant
            k <= n,
            s@ == old(s)@ + repeat(c, k as nat),
        decreases n - k,
    {
        s.push(c);
        assert(repeat(c, (k + 1) as nat) == repeat(c, k as nat).push(c));
        k += 1;
    }
}

/// The text of `source` between two character boundaries.
pub(crate) fn slice_between<'a>(source: &'a str, from: usize, to: usize) -> (part: &'a str)
    requires
        from <= to <= source.spec_bytes().len(),
        is_char_boundary(source.spec_bytes(), from as int),
        is_char_boundary(source.spec_bytes(), to as int),
    ensures
        part@ == decode_utf8(source.spec_bytes().subrange(from as int, to as int)),
{
    let ghost b = source.spec_bytes();
    proof {
        encode_utf8_valid_utf8(source@);
    }
    let (before, _) = source.split_at(to);
    proof {
        valid_utf8_split(b, to as int);
        let p = before.spec_bytes();
        assert(p == b.subrange(0, to as int));
        if from < to {
            is_char_boundary_iff_not_is_continuation_byte(b, from as int);
            is_char_boundary_iff_not_is_continuation_byte(p, from as int);
            assert(p[from as int] == b[from as int]);
        } else {
            encode_utf8_valid_utf8(before@);
            is_char_boundary_start_end_of_seq(p);
        }
    }
    let (_, part) = before.split_at(from);
    proof {
        encode_utf8_decode_utf8(part@);
        assert(part.spec_bytes() == b.subrange(from as int, to as int));
    }
    part
}

impl Diagnostic {
    pub fn new(message: String, span: Span) -> (diagnostic: Diagnostic)
        ensures
            diagnostic.message == message,
            diagnostic.span == span,
    {
        Diagnostic { message, span }
    }

    /// The diagnostic as `path:line:column: error: message`, followed by the source line and a
    /// marker under the span.
    pub fn render(&self, path: &str, source: &str) -> (text: String)
        requires
            source.spec_bytes().len() < usize::MAX,
        ensures
            text@ == rendered(path@, source.spec_bytes(), self.message@, self.span),
    {
        let ghost b = source.spec_bytes();
        proof {
            encode_utf8_valid_utf8(source@);
        }
        let bytes = source.as_bytes();
        let len = bytes.len();
        let clamped = if self.span.start < len {
            self.span.start
        } else {
            len
        };
        let start = floor_char_boundary(source, clamped);
        proof {
            lemma_floor_boundary_range(b, clamped as int);
        }
        let mut line_start = start;
        while line_start > 0 && bytes[line_start - 1] != 0x0Au8
            invariant
                line_start <= start <= len,
                len == b.len(),
                bytes@ == b,
                line_start_before(b, start as int) == line_start_before(b, line_start as int),
            decreases line_start,
        {
            line_start -= 1;
        }
        let mut line_end = start;
        while line_end < len && bytes[line_end] != 0x0Au8
            invariant
                start <= line_end <= len,
                len == b.len(),
                bytes@ == b,
                line_end_from(b, start as int) == line_end_from(b, line_end as int),
            decreases len - line_end,
        {
            line_end += 1;
        }
        proof {
            lemma_line_start(b, start as int);
            lemma_line_end(b, start as int);
            lemma_boundary_after_ascii(b, line_start as int);
            lemma_boundary_at_ascii(b, line_end as int);
        }
        let line_number = count_newlines_in(bytes, 0, start) + 1;
        let marker_offset = count_char_starts_in(bytes, line_start, start);
        let column = marker_offset + 1;
        let line = slice_between(source, line_start, line_end);
        let available = line_end - start;
        let width = if self.span.end > self.span.start {
            self.span.end - self.span.start
        } else {
            0
        };
        let end_limit = start + if width < available {
            width
        } else {
            available
        };
        let end = floor_char_boundary(source, end_limit);
        proof {
            lemma_floor_boundary_range(b, end_limit as int);
            lemma_floor_boundary_at_least(b, end_limit as int, start as int);
        }
        let counted = count_char_starts_in(bytes, start, end);
        let marker_len = if counted > 1 {
            counted
        } else {
            1
        };
        let gutter = crate::text::decimal_string(line_number as u64);
        let gutter_width = gutter.as_str().unicode_len();
        let mut text = owned(path);
        push_str(&mut text, ":");
        push_decimal(&mut text, line_number as u64);
        push_str(&mut text, ":");
        push_decimal(&mut text, column as u64);
        push_str(&mut text, ": error: ");
        push_str(&mut text, self.message.as_str());
        push_str(&mut text, "\n");
        push_repeat(&mut text, ' ', gutter_width);
        push_str(&mut text, " |\n");
        push_decimal(&mut text, line_number as u64);
        push_str(&mut text, " | ");
        push_str(&mut text, line);
        push_str(&mut text, "\n");
        push_repeat(&mut text, ' ', gutter_width);
        push_str(&mut text, " | ");
        push_repeat(&mut text, ' ', marker_offset);
        push_repeat(&mut text, '^', marker_len);
        text
    }
}

} // verus!
