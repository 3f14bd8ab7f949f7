//! Tokens of Speck source text.
use vstd::prelude::*;
use vstd::string::StringSliceAdditionalSpecFns;
use vstd::utf8::{
    codepoint_width_2, codepoint_width_3, codepoint_width_4, decode_first_scalar, decode_utf8,
    encode_utf8_decode_utf8, encode_utf8_valid_utf8, is_char_boundary,
    is_char_boundary_iff_not_is_continuation_byte, is_char_boundary_start_end_of_seq,
    is_continuation_byte, is_scalar, length_of_first_scalar, pop_first_scalar, valid_first_scalar,
    valid_utf8, valid_utf8_split,
};

use crate::diagnostic::{Diagnostic, Span, lemma_boundary_after_ascii, slice_between};
use crate::source::SourceId;
use crate::text::{ascii_chars, bytes_equal, owned, push_ascii, push_str};

verus! {

/// `char::from_u32` gives the character of a Unicode scalar value, and `None` otherwise.
pub assume_specification[ core::char::from_u32 ](i: u32) -> (c: Option<char>)
    ensures
        c == (if is_scalar(i) {
            Some(i as char)
        } else {
            None
        }),
;

#[derive(Clone, Debug, PartialEq)]
pub struct Token {
    pub kind: TokenKind,
    pub span: Span,
}

/// A token's kind. A floating-point literal keeps its source text.
#[derive(Clone, Debug, PartialEq)]
pub enum TokenKind {
    Identifier(String),
    String(String),
    Integer(i64),
    Float(String),
    Game,
    Let,
    Const,
    Struct,
    Start,
    Update,
    Draw,
    Fn,
    Return,
    If,
    Else,
    While,
    True,
    False,
    I32,
    F32,
    Bool,
    Void,
    LeftParen,
    RightParen,
    LeftBrace,
    RightBrace,
    LeftBracket,
    RightBracket,
    Colon,
    Comma,
    Semicolon,
    Dot,
    Plus,
    PlusEqual,
    Minus,
    MinusEqual,
    Star,
    StarEqual,
    Slash,
    SlashEqual,
    Bang,
    Equal,
    EqualEqual,
    BangEqual,
    Less,
    LessEqual,
    Greater,
    GreaterEqual,
    AndAnd,
    OrOr,
    Arrow,
    Eof,
}

/// A token kind with its text as characters.
pub enum TokenKindView {
    Identifier(Seq<char>),
    Str(Seq<char>),
    Integer(i64),
    Float(Seq<char>),
    Game,
    Let,
    Const,
    Struct,
    Start,
    Update,
    Draw,
    Fn,
    Return,
    If,
    Else,
    While,
    True,
    False,
    I32,
    F32,
    Bool,
    Void,
    LeftParen,
    RightParen,
    LeftBrace,
    RightBrace,
    LeftBracket,
    RightBracket,
    Colon,
    Comma,
    Semicolon,
    Dot,
    Plus,
    PlusEqual,
    Minus,
    MinusEqual,
    Star,
    StarEqual,
    Slash,
    SlashEqual,
    Bang,
    Equal,
    EqualEqual,
    BangEqual,
    Less,
    LessEqual,
    Greater,
    GreaterEqual,
    AndAnd,
    OrOr,
    Arrow,
    Eof,
}

impl View for TokenKind {
    type V = TokenKindView;

    open spec fn view(&self) -> TokenKindView {
        match self {
            TokenKind::Identifier(s) => TokenKindView::Identifier(s@),
            TokenKind::String(s) => TokenKindView::Str(s@),
            TokenKind::Integer(v) => TokenKindView::Integer(*v),
            TokenKind::Float(s) => TokenKindView::Float(s@),
            TokenKind::Game => TokenKindView::Game,
            TokenKind::Let => TokenKindView::Let,
            TokenKind::Const => TokenKindView::Const,
            TokenKind::Struct => TokenKindView::Struct,
            TokenKind::Start => TokenKindView::Start,
            TokenKind::Update => TokenKindView::Update,
            TokenKind::Draw => TokenKindView::Draw,
            TokenKind::Fn => TokenKindView::Fn,
            TokenKind::Return => TokenKindView::Return,
            TokenKind::If => TokenKindView::If,
            TokenKind::Else => TokenKindView::Else,
            TokenKind::While => TokenKindView::While,
            TokenKind::True => TokenKindView::True,
            TokenKind::False => TokenKindView::False,
            TokenKind::I32 => TokenKindView::I32,
            TokenKind::F32 => TokenKindView::F32,
            TokenKind::Bool => TokenKindView::Bool,
            TokenKind::Void => TokenKindView::Void,
            TokenKind::LeftParen => TokenKindView::LeftParen,
            TokenKind::RightParen => TokenKindView::RightParen,
            TokenKind::LeftBrace => TokenKindView::LeftBrace,
            TokenKind::RightBrace => TokenKindView::RightBrace,
            TokenKind::LeftBracket => TokenKindView::LeftBracket,
            TokenKind::RightBracket => TokenKindView::RightBracket,
            TokenKind::Colon => TokenKindView::Colon,
            TokenKind::Comma => TokenKindView::Comma,
            TokenKind::Semicolon => TokenKindView::Semicolon,
            TokenKind::Dot => TokenKindView::Dot,
            TokenKind::Plus => TokenKindView::Plus,
            TokenKind::PlusEqual => TokenKindView::PlusEqual,
            TokenKind::Minus => TokenKindView::Minus,
            TokenKind::MinusEqual => TokenKindView::MinusEqual,
            TokenKind::Star => TokenKindView::Star,
            TokenKind::StarEqual => TokenKindView::StarEqual,
            TokenKind::Slash => TokenKindView::Slash,
            TokenKind::SlashEqual => TokenKindView::SlashEqual,
            TokenKind::Bang => TokenKindView::Bang,
            TokenKind::Equal => TokenKindView::Equal,
            TokenKind::EqualEqual => TokenKindView::EqualEqual,
            TokenKind::BangEqual => TokenKindView::BangEqual,
            TokenKind::Less => TokenKindView::Less,
            TokenKind::LessEqual => TokenKindView::LessEqual,
            TokenKind::Greater => TokenKindView::Greater,
            TokenKind::GreaterEqual => TokenKindView::GreaterEqual,
            TokenKind::AndAnd => TokenKindView::AndAnd,
            TokenKind::OrOr => TokenKindView::OrOr,
            TokenKind::Arrow => TokenKindView::Arrow,
            TokenKind::Eof => TokenKindView::Eof,
        }
    }
}

/// A token as its kind and span.
pub struct TokenView {
    pub kind: TokenKindView,
    pub span: Span,
}

impl View for Token {
    type V = TokenView;

    open spec fn view(&self) -> TokenView {
        TokenView { kind: self.kind@, span: self.span }
    }
}

/// A diagnostic as its message and span.
pub open spec fn diagnostic_view(d: Diagnostic) -> (Seq<char>, Span) {
    (d.message@, d.span)
}

/// The keyword spelled by identifier bytes, if any.
pub open spec fn keyword(text: Seq<u8>) -> Option<TokenKindView> {
    if text == seq![0x67u8, 0x61u8, 0x6Du8, 0x65u8] {
        Some(TokenKindView::Game)
    } else if text == seq![0x6Cu8, 0x65u8, 0x74u8] {
        Some(TokenKindView::Let)
    } else if text == seq![0x63u8, 0x6Fu8, 0x6Eu8, 0x73u8, 0x74u8] {
        Some(TokenKindView::Const)
    } else if text == seq![0x73u8, 0x74u8, 0x72u8, 0x75u8, 0x63u8, 0x74u8] {
        Some(TokenKindView::Struct)
    } else if text == seq![0x73u8, 0x74u8, 0x61u8, 0x72u8, 0x74u8] {
        Some(TokenKindView::Start)
    } else if text == seq![0x75u8, 0x70u8, 0x64u8, 0x61u8, 0x74u8, 0x65u8] {
        Some(TokenKindView::Update)
    } else if text == seq![0x64u8, 0x72u8, 0x61u8, 0x77u8] {
        Some(TokenKindView::Draw)
    } else if text == seq![0x66u8, 0x6Eu8] {
        Some(TokenKindView::Fn)
    } else if text == seq![0x72u8, 0x65u8, 0x74u8, 0x75u8, 0x72u8, 0x6Eu8] {
        Some(TokenKindView::Return)
    } else if text == seq![0x69u8, 0x66u8] {
        Some(TokenKindView::If)
    } else if text == seq![0x65u8, 0x6Cu8, 0x73u8, 0x65u8] {
        Some(TokenKindView::Else)
    } else if text == seq![0x77u8, 0x68u8, 0x69u8, 0x6Cu8, 0x65u8] {
        Some(TokenKindView::While)
    } else if text == seq![0x74u8, 0x72u8, 0x75u8, 0x65u8] {
        Some(TokenKindView::True)
    } else if text == seq![0x66u8, 0x61u8, 0x6Cu8, 0x73u8, 0x65u8] {
        Some(TokenKindView::False)
    } else if text == seq![0x69u8, 0x33u8, 0x32u8] {
        Some(TokenKindView::I32)
    } else if text == seq![0x66u8, 0x33u8, 0x32u8] {
        Some(TokenKindView::F32)
    } else if text == seq![0x62u8, 0x6Fu8, 0x6Fu8, 0x6Cu8] {
        Some(TokenKindView::Bool)
    } else if text == seq![0x76u8, 0x6Fu8, 0x69u8, 0x64u8] {
        Some(TokenKindView::Void)
    } else {
        None
    }
}

fn keyword_of(text: &[u8]) -> (kind: Option<TokenKind>)
    ensures
        match (kind, keyword(text@)) {
            (Some(k), Some(v)) => k@ == v,
            (None, None) => true,
            _ => false,
        },
{
    let candidate: [u8; 4] = [0x67u8, 0x61u8, 0x6Du8, 0x65u8];
    if bytes_equal(text, &candidate) {
        return Some(TokenKind::Game);
    }
    let candidate: [u8; 3] = [0x6Cu8, 0x65u8, 0x74u8];
    if bytes_equal(text, &candidate) {
        return Some(TokenKind::Let);
    }
    let candidate: [u8; 5] = [0x63u8, 0x6Fu8, 0x6Eu8, 0x73u8, 0x74u8];
    if bytes_equal(text, &candidate) {
        return Some(TokenKind::Const);
    }
    let candidate: [u8; 6] = [0x73u8, 0x74u8, 0x72u8, 0x75u8, 0x63u8, 0x74u8];
    if bytes_equal(text, &candidate) {
        return Some(TokenKind::Struct);
    }
    let candidate: [u8; 5] = [0x73u8, 0x74u8, 0x61u8, 0x72u8, 0x74u8];
    if bytes_equal(text, &candidate) {
        return Some(TokenKind::Start);
    }
    let candidate: [u8; 6] = [0x75u8, 0x70u8, 0x64u8, 0x61u8, 0x74u8, 0x65u8];
    if bytes_equal(text, &candidate) {
        return Some(TokenKind::Update);
    }
    let candidate: [u8; 4] = [0x64u8, 0x72u8, 0x61u8, 0x77u8];
    if bytes_equal(text, &candidate) {
        return Some(TokenKind::Draw);
    }
    let candidate: [u8; 2] = [0x66u8, 0x6Eu8];
    if bytes_equal(text, &candidate) {
        return Some(TokenKind::Fn);
    }
    let candidate: [u8; 6] = [0x72u8, 0x65u8, 0x74u8, 0x75u8, 0x72u8, 0x6Eu8];
    if bytes_equal(text, &candidate) {
        return Some(TokenKind::Return);
    }
    let candidate: [u8; 2] = [0x69u8, 0x66u8];
    if bytes_equal(text, &candidate) {
        return Some(TokenKind::If);
    }
    let candidate: [u8; 4] = [0x65u8, 0x6Cu8, 0x73u8, 0x65u8];
    if bytes_equal(text, &candidate) {
        return Some(TokenKind::Else);
    }
    let candidate: [u8; 5] = [0x77u8, 0x68u8, 0x69u8, 0x6Cu8, 0x65u8];
    if bytes_equal(text, &candidate) {
        return Some(TokenKind::While);
    }
    let candidate: [u8; 4] = [0x74u8, 0x72u8, 0x75u8, 0x65u8];
    if bytes_equal(text, &candidate) {
        return Some(TokenKind::True);
    }
    let candidate: [u8; 5] = [0x66u8, 0x61u8, 0x6Cu8, 0x73u8, 0x65u8];
    if bytes_equal(text, &candidate) {
        return Some(TokenKind::False);
    }
    let candidate: [u8; 3] = [0x69u8, 0x33u8, 0x32u8];
    if bytes_equal(text, &candidate) {
        return Some(TokenKind::I32);
    }
    let candidate: [u8; 3] = [0x66u8, 0x33u8, 0x32u8];
    if bytes_equal(text, &candidate) {
        return Some(TokenKind::F32);
    }
    let candidate: [u8; 4] = [0x62u8, 0x6Fu8, 0x6Fu8, 0x6Cu8];
    if bytes_equal(text, &candidate) {
        return Some(TokenKind::Bool);
    }
    let candidate: [u8; 4] = [0x76u8, 0x6Fu8, 0x69u8, 0x64u8];
    if bytes_equal(text, &candidate) {
        return Some(TokenKind::Void);
    }
    None
}

/// One step of the lexer at a position.
pub enum LexStep {
    /// Nothing is produced; lexing continues at the offset.
    Skip(int),
    /// A token that ends at the offset.
    Emit(TokenKindView, int),
    /// A diagnostic whose span ends at the offset, where lexing continues.
    Fail(Seq<char>, int),
}

pub open spec fn is_space(c: u8) -> bool {
    c == 0x20u8 || c == 0x09u8 || c == 0x0Du8 || c == 0x0Au8
}

pub open spec fn is_digit(c: u8) -> bool {
    0x30u8 <= c <= 0x39u8
}

pub open spec fn is_ident_start(c: u8) -> bool {
    (0x61u8 <= c <= 0x7Au8) || (0x41u8 <= c <= 0x5Au8) || c == 0x5Fu8
}

pub open spec fn is_ident_continue(c: u8) -> bool {
    is_ident_start(c) || is_digit(c)
}

/// First position at or after `i` that does not hold a digit.
pub open spec fn digits_end(b: Seq<u8>, i: int) -> int
    decreases b.len() - i,
{
    if i < b.len() && is_digit(b[i]) {
        digits_end(b, i + 1)
    } else {
        i
    }
}

/// First position at or after `i` that does not continue an identifier.
pub open spec fn ident_end(b: Seq<u8>, i: int) -> int
    decreases b.len() - i,
{
    if i < b.len() && is_ident_continue(b[i]) {
        ident_end(b, i + 1)
    } else {
        i
    }
}

/// First position at or after `i` holding a quote or a newline, or the length.
pub open spec fn string_end(b: Seq<u8>, i: int) -> int
    decreases b.len() - i,
{
    if i < b.len() && b[i] != 0x22u8 && b[i] != 0x0Au8 {
        string_end(b, i + 1)
    } else {
        i
    }
}

/// Decimal value of digit bytes.
pub open spec fn digits_value(s: Seq<u8>) -> nat
    decreases s.len(),
{
    if s.len() == 0 {
        0
    } else {
        digits_value(s.drop_last()) * 10 + (s.last() - 48) as nat
    }
}

/// The token of a one-byte punctuation character, if it is one.
pub open spec fn single(c: u8) -> Option<TokenKindView> {
    if c == 0x28u8 {
        Some(TokenKindView::LeftParen)
    } else if c == 0x29u8 {
        Some(TokenKindView::RightParen)
    } else if c == 0x7Bu8 {
        Some(TokenKindView::LeftBrace)
    } else if c == 0x7Du8 {
        Some(TokenKindView::RightBrace)
    } else if c == 0x5Bu8 {
        Some(TokenKindView::LeftBracket)
    } else if c == 0x5Du8 {
        Some(TokenKindView::RightBracket)
    } else if c == 0x3Au8 {
        Some(TokenKindView::Colon)
    } else if c == 0x2Cu8 {
        Some(TokenKindView::Comma)
    } else if c == 0x3Bu8 {
        Some(TokenKindView::Semicolon)
    } else if c == 0x2Eu8 {
        Some(TokenKindView::Dot)
    } else {
        None
    }
}

/// The character of a code point that is a Unicode scalar, and nothing otherwise.
pub open spec fn scalar_chars(cp: u32) -> Seq<char> {
    if is_scalar(cp) {
        seq![cp as char]
    } else {
        seq![]
    }
}

/// Whether the byte after `p` is `c`.
pub open spec fn followed_by(b: Seq<u8>, p: int, c: u8) -> bool {
    p + 1 < b.len() && b[p + 1] == c
}

/// What the lexer does at position `p`.
pub open spec fn lex_step(b: Seq<u8>, p: int) -> LexStep {
    let c = b[p];
    if is_space(c) {
        LexStep::Skip(p + 1)
    } else if single(c) is Some {
        LexStep::Emit(single(c)->0, p + 1)
    } else if c == 0x2Bu8 {
        if followed_by(b, p, 0x3Du8) {
            LexStep::Emit(TokenKindView::PlusEqual, p + 2)
        } else {
            LexStep::Emit(TokenKindView::Plus, p + 1)
        }
    } else if c == 0x2Au8 {
        if followed_by(b, p, 0x3Du8) {
            LexStep::Emit(TokenKindView::StarEqual, p + 2)
        } else {
            LexStep::Emit(TokenKindView::Star, p + 1)
        }
    } else if c == 0x2Du8 {
        if followed_by(b, p, 0x3Eu8) {
            LexStep::Emit(TokenKindView::Arrow, p + 2)
        } else if followed_by(b, p, 0x3Du8) {
            LexStep::Emit(TokenKindView::MinusEqual, p + 2)
        } else {
            LexStep::Emit(TokenKindView::Minus, p + 1)
        }
    } else if c == 0x2Fu8 {
        if followed_by(b, p, 0x2Fu8) {
            LexStep::Skip(crate::diagnostic::line_end_from(b, p + 2))
        } else if followed_by(b, p, 0x3Du8) {
            LexStep::Emit(TokenKindView::SlashEqual, p + 2)
        } else {
            LexStep::Emit(TokenKindView::Slash, p + 1)
        }
    } else if c == 0x21u8 {
        if followed_by(b, p, 0x3Du8) {
            LexStep::Emit(TokenKindView::BangEqual, p + 2)
        } else {
            LexStep::Emit(TokenKindView::Bang, p + 1)
        }
    } else if c == 0x3Du8 {
        if followed_by(b, p, 0x3Du8) {
            LexStep::Emit(TokenKindView::EqualEqual, p + 2)
        } else {
            LexStep::Emit(TokenKindView::Equal, p + 1)
        }
    } else if c == 0x3Cu8 {
        if followed_by(b, p, 0x3Du8) {
            LexStep::Emit(TokenKindView::LessEqual, p + 2)
        } else {
            LexStep::Emit(TokenKindView::Less, p + 1)
        }
    } else if c == 0x3Eu8 {
        if followed_by(b, p, 0x3Du8) {
            LexStep::Emit(TokenKindView::GreaterEqual, p + 2)
        } else {
            LexStep::Emit(TokenKindView::Greater, p + 1)
        }
    } else if c == 0x26u8 && followed_by(b, p, 0x26u8) {
        LexStep::Emit(TokenKindView::AndAnd, p + 2)
    } else if c == 0x7Cu8 && followed_by(b, p, 0x7Cu8) {
        LexStep::Emit(TokenKindView::OrOr, p + 2)
    } else if c == 0x22u8 {
        let q = string_end(b, p + 1);
        if q >= b.len() || b[q] == 0x0Au8 {
            LexStep::Fail("unterminated game title"@, q)
        } else {
            LexStep::Emit(TokenKindView::Str(decode_utf8(b.subrange(p + 1, q))), q + 1)
        }
    } else if is_digit(c) {
        let e = digits_end(b, p);
        if e + 1 < b.len() && b[e] == 0x2Eu8 && is_digit(b[e + 1]) {
            let f = digits_end(b, e + 1);
            LexStep::Emit(TokenKindView::Float(ascii_chars(b.subrange(p, f))), f)
        } else if digits_value(b.subrange(p, e)) <= i64::MAX {
            LexStep::Emit(TokenKindView::Integer(digits_value(b.subrange(p, e)) as i64), e)
        } else {
            LexStep::Fail("numeric literal is out of range"@, e)
        }
    } else if is_ident_start(c) {
        let e = ident_end(b, p);
        match keyword(b.subrange(p, e)) {
            Some(k) => LexStep::Emit(k, e),
            None => LexStep::Emit(TokenKindView::Identifier(ascii_chars(b.subrange(p, e))), e),
        }
    } else {
        let rest = b.subrange(p, b.len() as int);
        LexStep::Fail(
            "unexpected character `"@ + scalar_chars(decode_first_scalar(rest)) + "`"@,
            p + length_of_first_scalar(rest),
        )
    }
}

/// The offset where lexing continues after the step at `p`.
pub open spec fn step_next(step: LexStep) -> int {
    match step {
        LexStep::Skip(n) => n,
        LexStep::Emit(_, n) => n,
        LexStep::Fail(_, n) => n,
    }
}

/// A span in the default file.
pub open spec fn span_at(start: int, end: int) -> Span {
    Span { source: SourceId(0), start: start as usize, end: end as usize }
}

/// Tokens and diagnostics produced from position `p` to the end.
pub open spec fn lex_from(b: Seq<u8>, p: int) -> (Seq<TokenView>, Seq<(Seq<char>, Span)>)
    decreases b.len() - p,
{
    if p < 0 || p >= b.len() {
        (seq![], seq![])
    } else {
        let step = lex_step(b, p);
        let n = step_next(step);
        if n <= p || n > b.len() {
            (seq![], seq![])
        } else {
            let rest = lex_from(b, n);
            match step {
                LexStep::Skip(_) => rest,
                LexStep::Emit(k, e) => (
                    seq![TokenView { kind: k, span: span_at(p, e) }] + rest.0,
                    rest.1,
                ),
                LexStep::Fail(m, e) => (rest.0, seq![(m, span_at(p, e))] + rest.1),
            }
        }
    }
}

/// The tokens of a whole source text, ending with `Eof`, or its diagnostics.
pub open spec fn lexed(b: Seq<u8>) -> Result<Seq<TokenView>, Seq<(Seq<char>, Span)>> {
    let r = lex_from(b, 0);
    if r.1.len() == 0 {
        Ok(r.0.push(TokenView { kind: TokenKindView::Eof, span: span_at(b.len() as int, b.len() as int) }))
    } else {
        Err(r.1)
    }
}

/// An integer token a step emits is never negative.
proof fn lemma_step_integer(b: Seq<u8>, p: int)
    ensures
        lex_step(b, p) matches LexStep::Emit(TokenKindView::Integer(v), _) ==> v >= 0,
{
}

/// Every token lexed from `p` on is in the default file, and no integer token is negative.
proof fn lemma_lex_from_tokens(b: Seq<u8>, p: int)
    ensures
        forall|i: int|
            0 <= i < lex_from(b, p).0.len() ==> (#[trigger] lex_from(b, p).0[i]).span.source == SourceId(0) && (
            lex_from(b, p).0[i].kind matches TokenKindView::Integer(v) ==> v >= 0),
    decreases b.len() - p,
{
    if 0 <= p < b.len() {
        let step = lex_step(b, p);
        let n = step_next(step);
        if n > p && n <= b.len() {
            lemma_lex_from_tokens(b, n);
            lemma_step_integer(b, p);
            let rest = lex_from(b, n);
            match step {
                LexStep::Emit(k, e) => {
                    let t = seq![TokenView { kind: k, span: span_at(p, e) }] + rest.0;
                    assert forall|i: int| 0 <= i < t.len() implies (#[trigger] t[i]).span.source == SourceId(0) && (
                    t[i].kind matches TokenKindView::Integer(v) ==> v >= 0) by {
                        if i > 0 {
                            assert(t[i] == rest.0[i - 1]);
                        }
                    }
                },
                _ => {},
            }
        }
    }
}

/// What lexing gives is what parsing takes: a non-empty list of tokens in one file, ending
/// with the end-of-file token, with no negative integer.
pub proof fn lemma_lexed_well_formed(source: &str, tokens: Seq<Token>)
    requires
        lexed(source.spec_bytes()) matches Ok(v) && tokens.map_values(|k: Token| k@) == v,
    ensures
        crate::parser::tokens_well_formed(tokens),
{
    let b = source.spec_bytes();
    let v = lexed(b)->Ok_0;
    let r = lex_from(b, 0);
    lemma_lex_from_tokens(b, 0);
    assert(v == r.0.push(TokenView { kind: TokenKindView::Eof, span: span_at(b.len() as int, b.len() as int) }));
    assert(tokens.len() == v.len());
    assert forall|i: int| 0 <= i < tokens.len() implies (#[trigger] tokens[i]).span.source == SourceId(0) && match tokens[i].kind {
        TokenKind::Integer(x) => x >= 0,
        _ => true,
    } by {
        assert(tokens[i]@ == v[i]);
        if i < r.0.len() {
            assert(v[i] == r.0[i]);
        }
    }
    assert(tokens[tokens.len() - 1]@ == v[v.len() - 1]);
}

pub(crate) proof fn lemma_digits_end(b: Seq<u8>, i: int)
    requires
        0 <= i <= b.len(),
    ensures
        i <= digits_end(b, i) <= b.len(),
        forall|k: int| i <= k < digits_end(b, i) ==> is_digit(#[trigger] b[k]),
        digits_end(b, i) < b.len() ==> !is_digit(b[digits_end(b, i)]),
    decreases b.len() - i,
{
    if i < b.len() && is_digit(b[i]) {
        lemma_digits_end(b, i + 1);
    }
}

proof fn lemma_ident_end(b: Seq<u8>, i: int)
    requires
        0 <= i <= b.len(),
    ensures
        i <= ident_end(b, i) <= b.len(),
        forall|k: int| i <= k < ident_end(b, i) ==> is_ident_continue(#[trigger] b[k]),
        ident_end(b, i) < b.len() ==> !is_ident_continue(b[ident_end(b, i)]),
    decreases b.len() - i,
{
    if i < b.len() && is_ident_continue(b[i]) {
        lemma_ident_end(b, i + 1);
    }
}

proof fn lemma_string_end(b: Seq<u8>, i: int)
    requires
        0 <= i <= b.len(),
    ensures
        i <= string_end(b, i) <= b.len(),
        string_end(b, i) < b.len() ==> (b[string_end(b, i)] == 0x22u8 || b[string_end(b, i)]
            == 0x0Au8),
    decreases b.len() - i,
{
    if i < b.len() && b[i] != 0x22u8 && b[i] != 0x0Au8 {
        lemma_string_end(b, i + 1);
    }
}

proof fn lemma_line_end(b: Seq<u8>, i: int)
    requires
        0 <= i <= b.len(),
    ensures
        i <= crate::diagnostic::line_end_from(b, i) <= b.len(),
        crate::diagnostic::line_end_from(b, i) < b.len() ==> b[crate::diagnostic::line_end_from(
            b,
            i,
        )] == 0x0Au8,
    decreases b.len() - i,
{
    if i < b.len() && b[i] != 0x0Au8 {
        lemma_line_end(b, i + 1);
    }
}

/// After an ASCII byte, valid UTF-8 continues with a byte that starts a character.
proof fn lemma_not_continuation_after_ascii(b: Seq<u8>, i: int)
    requires
        valid_utf8(b),
        0 < i < b.len(),
        b[i - 1] < 0x80,
    ensures
        !is_continuation_byte(b[i]),
{
    lemma_boundary_after_ascii(b, i);
    is_char_boundary_iff_not_is_continuation_byte(b, i);
}

/// At a position that starts a character, the rest of valid UTF-8 begins with a whole scalar
/// whose end also starts a character or is the end.
proof fn lemma_scalar_at(b: Seq<u8>, p: int)
    requires
        valid_utf8(b),
        0 <= p < b.len(),
        !is_continuation_byte(b[p]),
    ensures
        valid_first_scalar(b.subrange(p, b.len() as int)),
        1 <= length_of_first_scalar(b.subrange(p, b.len() as int)) <= b.len() - p,
        p + length_of_first_scalar(b.subrange(p, b.len() as int)) < b.len() ==> !is_continuation_byte(
            b[p + length_of_first_scalar(b.subrange(p, b.len() as int))],
        ),
{
    is_char_boundary_iff_not_is_continuation_byte(b, p);
    valid_utf8_split(b, p);
    let rest = b.subrange(p, b.len() as int);
    reveal_with_fuel(valid_utf8, 2);
    let l = length_of_first_scalar(rest);
    let tail = pop_first_scalar(rest);
    if p + l < b.len() {
        assert(tail[0] == b[p + l]);
        assert(valid_first_scalar(tail));
    }
}

pub(crate) fn scan_digits(bytes: &[u8], from: usize) -> (end: usize)
    requires
        from <= bytes@.len(),
    ensures
        end == digits_end(bytes@, from as int),
{
    let mut end = from;
    while end < bytes.len() && 0x30u8 <= bytes[end] && bytes[end] <= 0x39u8
        invariant
            from <= end <= bytes@.len(),
            digits_end(bytes@, from as int) == digits_end(bytes@, end as int),
        decreases bytes.len() - end,
    {
        end += 1;
    }
    end
}

fn scan_identifier(bytes: &[u8], from: usize) -> (end: usize)
    requires
        from <= bytes@.len(),
    ensures
        end == ident_end(bytes@, from as int),
{
    let mut end = from;
    while end < bytes.len() && ((0x61u8 <= bytes[end] && bytes[end] <= 0x7Au8) || (0x41u8
        <= bytes[end] && bytes[end] <= 0x5Au8) || bytes[end] == 0x5Fu8 || (0x30u8 <= bytes[end]
        && bytes[end] <= 0x39u8))
        invariant
            from <= end <= bytes@.len(),
            ident_end(bytes@, from as int) == ident_end(bytes@, end as int),
        decreases bytes.len() - end,
    {
        end += 1;
    }
    end
}

/// The value of digit bytes, unless it exceeds `i64::MAX`.
fn digits_value_in(bytes: &[u8], from: usize, to: usize) -> (value: Option<i64>)
    requires
        from <= to <= bytes@.len(),
        forall|k: int| from <= k < to ==> is_digit(#[trigger] bytes@[k]),
    ensures
        value is Some <==> digits_value(bytes@.subrange(from as int, to as int)) <= i64::MAX,
        value matches Some(v) ==> v == digits_value(bytes@.subrange(from as int, to as int)),
{
    let mut value: i64 = 0;
    let mut k = from;
    while k < to
        invariant
            from <= k <= to <= bytes@.len(),
            forall|j: int| from <= j < to ==> is_digit(#[trigger] bytes@[j]),
            value == digits_value(bytes@.subrange(from as int, k as int)),
        decreases to - k,
    {
        let ghost prefix = bytes@.subrange(from as int, k as int);
        assert(bytes@.subrange(from as int, k + 1).drop_last() == prefix);
        let d = (bytes[k] - 48u8) as i64;
        if value > (i64::MAX - d) / 10 {
            proof {
                lemma_digits_value_grows(bytes@.subrange(from as int, to as int), k - from + 1);
                assert(bytes@.subrange(from as int, to as int).subrange(0, k - from + 1)
                    == bytes@.subrange(from as int, k + 1));
            }
            return None;
        }
        value = value * 10 + d;
        k += 1;
    }
    Some(value)
}

/// The value of a prefix of digits is at most the value of the whole.
proof fn lemma_digits_value_grows(s: Seq<u8>, n: int)
    requires
        0 <= n <= s.len(),
        forall|k: int| 0 <= k < s.len() ==> is_digit(#[trigger] s[k]),
    ensures
        digits_value(s.subrange(0, n)) <= digits_value(s),
    decreases s.len(),
{
    if n < s.len() {
        let t = s.drop_last();
        assert(s.subrange(0, n) == t.subrange(0, n));
        lemma_digits_value_grows(t, n);
    } else {
        assert(s.subrange(0, n) == s);
    }
}

/// Whether the byte after `p` is `expected`.
fn followed(bytes: &[u8], p: usize, expected: u8) -> (r: bool)
    requires
        p < bytes@.len(),
    ensures
        r == followed_by(bytes@, p as int, expected),
{
    bytes.len() - p > 1 && bytes[p + 1] == expected
}

/// The message for a character that no token can start.
fn unexpected_character(bytes: &[u8], p: usize) -> (result: (String, usize))
    requires
        valid_utf8(bytes@),
        p < bytes@.len(),
        !is_continuation_byte(bytes@[p as int]),
    ensures
        result.0@ == "unexpected character `"@ + scalar_chars(
            decode_first_scalar(bytes@.subrange(p as int, bytes@.len() as int)),
        ) + "`"@,
        result.1 == p + length_of_first_scalar(bytes@.subrange(p as int, bytes@.len() as int)),
{
    let ghost rest = bytes@.subrange(p as int, bytes@.len() as int);
    proof {
        lemma_scalar_at(bytes@, p as int);
        assert(rest[0] == bytes@[p as int]);
    }
    let b0 = bytes[p];
    let (length, code): (usize, u32) = if b0 <= 0x7Fu8 {
        (1, (b0 & 0x7Fu8) as u32)
    } else if 0xC0u8 <= b0 && b0 <= 0xDFu8 {
        assert(rest[1] == bytes@[p + 1]);
        (2, (((b0 & 0x1Fu8) as u32) << 6u32) | ((bytes[p + 1] & 0x3Fu8) as u32))
    } else if 0xE0u8 <= b0 && b0 <= 0xEFu8 {
        assert(rest[1] == bytes@[p + 1]);
        assert(rest[2] == bytes@[p + 2]);
        (
            3,
            (((b0 & 0x0Fu8) as u32) << 12u32) | (((bytes[p + 1] & 0x3Fu8) as u32) << 6u32) | ((
            bytes[p + 2] & 0x3Fu8) as u32),
        )
    } else {
        assert(rest[1] == bytes@[p + 1]);
        assert(rest[2] == bytes@[p + 2]);
        assert(rest[3] == bytes@[p + 3]);
        (
            4,
            (((b0 & 0x07u8) as u32) << 18u32) | (((bytes[p + 1] & 0x3Fu8) as u32) << 12u32) | (((
            bytes[p + 2] & 0x3Fu8) as u32) << 6u32) | ((bytes[p + 3] & 0x3Fu8) as u32),
        )
    };
    let mut message = owned("unexpected character `");
    match core::char::from_u32(code) {
        Some(c) => message.push(c),
        None => {},
    }
    push_str(&mut message, "`");
    (message, p + length)
}

/// What the lexer finds at a position: skipped text, a token or a diagnostic, and where it
/// continues.
pub enum Scanned {
    Skip(usize),
    Found(TokenKind, usize),
    Failed(String, usize),
}

pub open spec fn scanned_view(s: Scanned) -> LexStep {
    match s {
        Scanned::Skip(n) => LexStep::Skip(n as int),
        Scanned::Found(k, n) => LexStep::Emit(k@, n as int),
        Scanned::Failed(m, n) => LexStep::Fail(m@, n as int),
    }
}

fn scan(source: &str, start: usize) -> (scanned: Scanned)
    requires
        valid_utf8(source.spec_bytes()),
        start < source.spec_bytes().len(),
        !is_continuation_byte(source.spec_bytes()[start as int]),
    ensures
        scanned_view(scanned) == lex_step(source.spec_bytes(), start as int),
        start < step_next(scanned_view(scanned)) <= source.spec_bytes().len(),
        step_next(scanned_view(scanned)) < source.spec_bytes().len() ==> !is_continuation_byte(
            source.spec_bytes()[step_next(scanned_view(scanned))],
        ),
{
    let bytes = source.as_bytes();
    let ghost b = bytes@;
    let c = bytes[start];
    // The kind of token found here and where it ends; `None` for skipped text.
    let mut found: Option<(TokenKind, usize)> = None;
    let mut failure: Option<(String, usize)> = None;
    let mut skip_to: usize = start + 1;
    if c == 0x20u8 || c == 0x09u8 || c == 0x0Du8 || c == 0x0Au8 {
    } else if c == 0x28u8 {
        found = Some((TokenKind::LeftParen, start + 1));
    } else if c == 0x29u8 {
        found = Some((TokenKind::RightParen, start + 1));
    } else if c == 0x7Bu8 {
        found = Some((TokenKind::LeftBrace, start + 1));
    } else if c == 0x7Du8 {
        found = Some((TokenKind::RightBrace, start + 1));
    } else if c == 0x5Bu8 {
        found = Some((TokenKind::LeftBracket, start + 1));
    } else if c == 0x5Du8 {
        found = Some((TokenKind::RightBracket, start + 1));
    } else if c == 0x3Au8 {
        found = Some((TokenKind::Colon, start + 1));
    } else if c == 0x2Cu8 {
        found = Some((TokenKind::Comma, start + 1));
    } else if c == 0x3Bu8 {
        found = Some((TokenKind::Semicolon, start + 1));
    } else if c == 0x2Eu8 {
        found = Some((TokenKind::Dot, start + 1));
    } else if c == 0x2Bu8 {
        found = if followed(bytes, start, 0x3Du8) {
            Some((TokenKind::PlusEqual, start + 2))
        } else {
            Some((TokenKind::Plus, start + 1))
        };
    } else if c == 0x2Au8 {
        found = if followed(bytes, start, 0x3Du8) {
            Some((TokenKind::StarEqual, start + 2))
        } else {
            Some((TokenKind::Star, start + 1))
        };
    } else if c == 0x2Du8 {
        found = if followed(bytes, start, 0x3Eu8) {
            Some((TokenKind::Arrow, start + 2))
        } else if followed(bytes, start, 0x3Du8) {
            Some((TokenKind::MinusEqual, start + 2))
        } else {
            Some((TokenKind::Minus, start + 1))
        };
    } else if c == 0x2Fu8 {
        if followed(bytes, start, 0x2Fu8) {
            let mut end = start + 2;
            while end < bytes.len() && bytes[end] != 0x0Au8
                invariant
                    b == bytes@,
                    start + 2 <= end <= bytes@.len(),
                    crate::diagnostic::line_end_from(b, start + 2)
                        == crate::diagnostic::line_end_from(b, end as int),
                decreases bytes.len() - end,
            {
                end += 1;
            }
            proof {
                lemma_line_end(b, start + 2);
            }
            skip_to = end;
        } else if followed(bytes, start, 0x3Du8) {
            found = Some((TokenKind::SlashEqual, start + 2));
        } else {
            found = Some((TokenKind::Slash, start + 1));
        }
    } else if c == 0x21u8 {
        found = if followed(bytes, start, 0x3Du8) {
            Some((TokenKind::BangEqual, start + 2))
        } else {
            Some((TokenKind::Bang, start + 1))
        };
    } else if c == 0x3Du8 {
        found = if followed(bytes, start, 0x3Du8) {
            Some((TokenKind::EqualEqual, start + 2))
        } else {
            Some((TokenKind::Equal, start + 1))
        };
    } else if c == 0x3Cu8 {
        found = if followed(bytes, start, 0x3Du8) {
            Some((TokenKind::LessEqual, start + 2))
        } else {
            Some((TokenKind::Less, start + 1))
        };
    } else if c == 0x3Eu8 {
        found = if followed(bytes, start, 0x3Du8) {
            Some((TokenKind::GreaterEqual, start + 2))
        } else {
            Some((TokenKind::Greater, start + 1))
        };
    } else if c == 0x26u8 && followed(bytes, start, 0x26u8) {
        found = Some((TokenKind::AndAnd, start + 2));
    } else if c == 0x7Cu8 && followed(bytes, start, 0x7Cu8) {
        found = Some((TokenKind::OrOr, start + 2));
    } else if c == 0x22u8 {
        let mut end = start + 1;
        while end < bytes.len() && bytes[end] != 0x22u8 && bytes[end] != 0x0Au8
            invariant
                b == bytes@,
                start + 1 <= end <= bytes@.len(),
                string_end(b, start + 1) == string_end(b, end as int),
            decreases bytes.len() - end,
        {
            end += 1;
        }
        proof {
            lemma_string_end(b, start + 1);
        }
        if end == bytes.len() || bytes[end] == 0x0Au8 {
            failure = Some((owned("unterminated game title"), end));
        } else {
            proof {
                lemma_boundary_after_ascii(b, start + 1);
                crate::diagnostic::lemma_boundary_at_ascii(b, end as int);
            }
            let value = slice_between(source, start + 1, end);
            found = Some((TokenKind::String(owned(value)), end + 1));
        }
    } else if 0x30u8 <= c && c <= 0x39u8 {
        let end = scan_digits(bytes, start);
        proof {
            lemma_digits_end(b, start as int);
        }
        if bytes.len() - end > 1 && bytes[end] == 0x2Eu8 && 0x30u8 <= bytes[end + 1]
            && bytes[end + 1] <= 0x39u8 {
            let fraction_end = scan_digits(bytes, end + 1);
            proof {
                lemma_digits_end(b, end + 1);
            }
            let mut text = String::new();
            push_ascii(&mut text, &bytes[start..fraction_end]);
            found = Some((TokenKind::Float(text), fraction_end));
        } else {
            match digits_value_in(bytes, start, end) {
                Some(value) => {
                    found = Some((TokenKind::Integer(value), end));
                },
                None => {
                    failure = Some((owned("numeric literal is out of range"), end));
                },
            }
        }
    } else if (0x61u8 <= c && c <= 0x7Au8) || (0x41u8 <= c && c <= 0x5Au8) || c == 0x5Fu8 {
        let end = scan_identifier(bytes, start);
        proof {
            lemma_ident_end(b, start as int);
        }
        let text: &[u8] = &bytes[start..end];
        found = match keyword_of(text) {
            Some(kind) => Some((kind, end)),
            None => {
                let mut name = String::new();
                push_ascii(&mut name, text);
                Some((TokenKind::Identifier(name), end))
            },
        };
    } else {
        proof {
            lemma_scalar_at(b, start as int);
        }
        failure = Some(unexpected_character(bytes, start));
    }
    let scanned = match found {
        Some((kind, end)) => Scanned::Found(kind, end),
        None => match failure {
            Some((message, end)) => Scanned::Failed(message, end),
            None => Scanned::Skip(skip_to),
        },
    };
    proof {
        let n = step_next(scanned_view(scanned));
        if 0 < n < b.len() && b[n - 1] < 0x80 {
            lemma_not_continuation_after_ascii(b, n);
        }
    }
    scanned
}

pub fn lex(source: &str) -> (tokens: Result<Vec<Token>, Vec<Diagnostic>>)
    ensures
        match (tokens, lexed(source.spec_bytes())) {
            (Ok(t), Ok(v)) => t@.map_values(|k: Token| k@) == v,
            (Err(d), Err(v)) => d@.map_values(|x: Diagnostic| diagnostic_view(x)) == v,
            _ => false,
        },
{
    let bytes = source.as_bytes();
    let ghost b = bytes@;
    proof {
        encode_utf8_valid_utf8(source@);
    }
    let mut tokens: Vec<Token> = Vec::new();
    let mut diagnostics: Vec<Diagnostic> = Vec::new();
    let mut cursor: usize = 0;
    assert(tokens@.map_values(|k: Token| k@) == Seq::<TokenView>::empty());
    assert(diagnostics@.map_values(|x: Diagnostic| diagnostic_view(x)) == Seq::<
        (Seq<char>, Span),
    >::empty());
    while cursor < bytes.len()
        invariant
            b == bytes@,
            b == source.spec_bytes(),
            valid_utf8(b),
            cursor <= b.len(),
            cursor < b.len() ==> !is_continuation_byte(b[cursor as int]),
            lex_from(b, 0) == (
                tokens@.map_values(|k: Token| k@) + lex_from(b, cursor as int).0,
                diagnostics@.map_values(|x: Diagnostic| diagnostic_view(x)) + lex_from(
                    b,
                    cursor as int,
                ).1,
            ),
        decreases bytes.len() - cursor,
    {
        let start = cursor;
        let scanned = scan(source, start);
        let ghost step = lex_step(b, start as int);
        let ghost before_tokens = tokens@.map_values(|k: Token| k@);
        let ghost before_diagnostics = diagnostics@.map_values(|x: Diagnostic| diagnostic_view(x));
        let ghost n = step_next(step);
        match scanned {
            Scanned::Found(kind, end) => {
                cursor = end;
                let token = Token { kind, span: Span::new(start, end) };
                proof {
                    assert(token@ == TokenView { kind: kind@, span: span_at(start as int, end as int) });
                }
                tokens.push(token);
            },
            Scanned::Failed(message, end) => {
                cursor = end;
                diagnostics.push(Diagnostic::new(message, Span::new(start, end)));
            },
            Scanned::Skip(end) => {
                cursor = end;
            },
        }
        proof {
            let rest = lex_from(b, n);
            assert(cursor == n);
            match step {
                LexStep::Emit(k, e) => {
                    assert(tokens@.map_values(|t: Token| t@) == before_tokens.push(
                        TokenView { kind: k, span: span_at(start as int, e) },
                    ));
                    assert(before_tokens + lex_from(b, start as int).0 == tokens@.map_values(
                        |t: Token| t@,
                    ) + rest.0);
                    assert(diagnostics@.map_values(|x: Diagnostic| diagnostic_view(x))
                        == before_diagnostics);
                },
                LexStep::Fail(m, e) => {
                    assert(diagnostics@.map_values(|x: Diagnostic| diagnostic_view(x))
                        == before_diagnostics.push((m, span_at(start as int, e))));
                    assert(before_diagnostics + lex_from(b, start as int).1 == diagnostics@.map_values(
                        |x: Diagnostic| diagnostic_view(x),
                    ) + rest.1);
                    assert(tokens@.map_values(|t: Token| t@) == before_tokens);
                },
                LexStep::Skip(_) => {
                    assert(tokens@.map_values(|t: Token| t@) == before_tokens);
                    assert(diagnostics@.map_values(|x: Diagnostic| diagnostic_view(x))
                        == before_diagnostics);
                },
            }
        }
    }
    let ghost before_tokens = tokens@.map_values(|k: Token| k@);
    tokens.push(Token { kind: TokenKind::Eof, span: Span::new(cursor, cursor) });
    assert(tokens@.map_values(|k: Token| k@) == before_tokens.push(
        TokenView { kind: TokenKindView::Eof, span: span_at(b.len() as int, b.len() as int) },
    ));
    if diagnostics.len() == 0 {
        Ok(tokens)
    } else {
        Err(diagnostics)
    }
}


// ---------------------------------------------------------------------------------------------
// Whitespace

/// Whether two sources have the same length and the same bytes from position `q` on.
pub open spec fn agree_from(b: Seq<u8>, c: Seq<u8>, q: int) -> bool {
    b.len() == c.len() && forall|i: int| q <= i < b.len() ==> b[i] == c[i]
}

proof fn lemma_digits_end_agree(b: Seq<u8>, c: Seq<u8>, i: int)
    requires
        agree_from(b, c, i),
        0 <= i <= b.len(),
    ensures
        digits_end(b, i) == digits_end(c, i),
        i <= digits_end(b, i) <= b.len(),
    decreases b.len() - i,
{
    if i < b.len() && is_digit(b[i]) {
        lemma_digits_end_agree(b, c, i + 1);
    }
}

proof fn lemma_ident_end_agree(b: Seq<u8>, c: Seq<u8>, i: int)
    requires
        agree_from(b, c, i),
        0 <= i <= b.len(),
    ensures
        ident_end(b, i) == ident_end(c, i),
        i <= ident_end(b, i) <= b.len(),
    decreases b.len() - i,
{
    if i < b.len() && is_ident_continue(b[i]) {
        lemma_ident_end_agree(b, c, i + 1);
    }
}

proof fn lemma_string_end_agree(b: Seq<u8>, c: Seq<u8>, i: int)
    requires
        agree_from(b, c, i),
        0 <= i <= b.len(),
    ensures
        string_end(b, i) == string_end(c, i),
        i <= string_end(b, i) <= b.len(),
    decreases b.len() - i,
{
    if i < b.len() && b[i] != 0x22u8 && b[i] != 0x0Au8 {
        lemma_string_end_agree(b, c, i + 1);
    }
}

proof fn lemma_line_end_agree(b: Seq<u8>, c: Seq<u8>, i: int)
    requires
        agree_from(b, c, i),
        0 <= i,
    ensures
        crate::diagnostic::line_end_from(b, i) == crate::diagnostic::line_end_from(c, i),
    decreases b.len() - i,
{
    if i < b.len() && b[i] != 0x0Au8 {
        lemma_line_end_agree(b, c, i + 1);
    }
}

/// What the lexer does at `p` depends only on the bytes from `p` on.
proof fn lemma_step_agree(b: Seq<u8>, c: Seq<u8>, p: int)
    requires
        agree_from(b, c, p),
        0 <= p < b.len(),
    ensures
        lex_step(b, p) == lex_step(c, p),
{
    lemma_digits_end_agree(b, c, p);
    lemma_ident_end_agree(b, c, p);
    lemma_string_end_agree(b, c, p + 1);
    lemma_line_end_agree(b, c, p + 2);
    let e = digits_end(b, p);
    assert(b.subrange(p, e) =~= c.subrange(p, e));
    if e + 1 < b.len() {
        lemma_digits_end_agree(b, c, e + 1);
        let f = digits_end(b, e + 1);
        assert(b.subrange(p, f) =~= c.subrange(p, f));
    }
    let i = ident_end(b, p);
    assert(b.subrange(p, i) =~= c.subrange(p, i));
    let q = string_end(b, p + 1);
    assert(b.subrange(p + 1, q) =~= c.subrange(p + 1, q));
    assert(b.subrange(p, b.len() as int) =~= c.subrange(p, c.len() as int));
}

/// What lexing from `p` gives depends only on the bytes from `p` on.
proof fn lemma_lex_from_agree(b: Seq<u8>, c: Seq<u8>, p: int)
    requires
        agree_from(b, c, p),
    ensures
        lex_from(b, p) == lex_from(c, p),
    decreases b.len() - p,
{
    if 0 <= p < b.len() {
        lemma_step_agree(b, c, p);
        let n = step_next(lex_step(b, p));
        if p < n <= b.len() {
            lemma_lex_from_agree(b, c, n);
        }
    }
}

/// A space, tab, carriage return or line feed where a token could start is skipped: lexing
/// from it gives exactly what lexing from the next byte gives, with no token and no error.
pub proof fn lemma_whitespace_is_skipped(b: Seq<u8>, p: int)
    requires
        0 <= p < b.len(),
        b[p] == 0x20u8 || b[p] == 0x09u8 || b[p] == 0x0Du8 || b[p] == 0x0Au8,
    ensures
        lex_from(b, p) == lex_from(b, p + 1),
{
}

/// A tab lexes like a space: putting a tab in place of a space where a token could start
/// leaves every token, span and diagnostic from there on unchanged.
pub proof fn lemma_tab_lexes_like_space(b: Seq<u8>, p: int)
    requires
        0 <= p < b.len(),
        b[p] == 0x20u8,
    ensures
        lex_from(b.update(p, 0x09u8), p) == lex_from(b, p),
{
    let c = b.update(p, 0x09u8);
    lemma_whitespace_is_skipped(b, p);
    lemma_whitespace_is_skipped(c, p);
    lemma_lex_from_agree(c, b, p + 1);
}

} // verus!
