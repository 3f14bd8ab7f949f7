//! Recursive-descent parsing of a token stream into a [`Program`].
use vstd::prelude::*;

use crate::ast::{
    has_invalid_length,
    ArrayLength, AssignOp, BinaryOp, Constant, Expr, ExprKind, FieldInitializer, Function,
    FunctionKind, Global, Param, Program, ReturnType, Stmt, StmtKind, StructDecl, StructField,
    UnaryOp, ValueType,
};
use crate::diagnostic::{Diagnostic, Span};
use crate::lexer::{Token, TokenKind, TokenKindView};
use crate::text::{owned, str_equal};

verus! {

/// Tokens the parser can walk: a nonempty stream that ends with `Eof`, from one source file,
/// whose integer literals are not negative.
pub open spec fn tokens_well_formed(t: Seq<Token>) -> bool {
    &&& t.len() > 0
    &&& t.last().kind is Eof
    &&& forall|i: int| 0 <= i < t.len() ==> (#[trigger] t[i]).span.source == t[0].span.source
    &&& forall|i: int| 0 <= i < t.len() ==> match (#[trigger] t[i]).kind {
        TokenKind::Integer(v) => v >= 0,
        _ => true,
    }
}

/// Well-formed tokens whose positions fit in `usize`, as every `Vec`'s do.
pub open spec fn walkable(t: Seq<Token>) -> bool {
    tokens_well_formed(t) && t.len() <= usize::MAX
}

/// A span that runs from the start of token `from` to the end of token `to - 1`.
pub open spec fn covers(span: Span, t: Seq<Token>, from: int, to: int) -> bool {
    span == Span { source: t[0].span.source, start: t[from].span.start, end: t[to - 1].span.end }
}

/// A span that is the span of some token.
pub open spec fn at_token(span: Span, t: Seq<Token>) -> bool {
    exists|i: int| 0 <= i < t.len() && (#[trigger] t[i]).span == span
}

/// What parsing one expression from `pos` promises: it consumed at least one token, stopped at
/// or before `Eof`, and the expression's span covers exactly the consumed tokens; or it failed at
/// a token.
pub open spec fn parsed_expr(r: Result<(Expr, usize), Diagnostic>, t: Seq<Token>, pos: int) -> bool {
    match r {
        Ok((e, next)) => pos < next < t.len() && covers(e.span, t, pos, next as int),
        Err(d) => at_token(d.span, t),
    }
}

/// Whether the token at `q` opens a parenthesized group.
pub open spec fn opens_group(t: Seq<Token>, q: int) -> bool {
    0 <= q < t.len() && t[q].kind is LeftParen
}

/// Whether `e`, parsed from token `q`, is a binary operator's node only as a parenthesized group.
pub open spec fn grouped_if_binary(e: Expr, t: Seq<Token>, q: int) -> bool {
    e.kind is Binary ==> opens_group(t, q)
}

/// The precedence level of a binary operator, from the tightest: `*` `/`, then `+` `-`, then
/// the comparisons, then `==` `!=`, then `&&`, then `||`.
pub open spec fn rank(op: BinaryOp) -> int {
    match op {
        BinaryOp::Multiply | BinaryOp::Divide => 1,
        BinaryOp::Add | BinaryOp::Subtract => 2,
        BinaryOp::Less | BinaryOp::LessEqual | BinaryOp::Greater | BinaryOp::GreaterEqual => 3,
        BinaryOp::Equal | BinaryOp::NotEqual => 4,
        BinaryOp::LogicalAnd => 5,
        BinaryOp::LogicalOr => 6,
    }
}

/// Whether the token at `q` is the operator `op`.
pub open spec fn operator_token(t: Seq<Token>, q: int, op: BinaryOp) -> bool {
    0 <= q < t.len() && kind_tag(t[q].kind) == kind_tag(
        match op {
            BinaryOp::Add => TokenKind::Plus,
            BinaryOp::Subtract => TokenKind::Minus,
            BinaryOp::Multiply => TokenKind::Star,
            BinaryOp::Divide => TokenKind::Slash,
            BinaryOp::Equal => TokenKind::EqualEqual,
            BinaryOp::NotEqual => TokenKind::BangEqual,
            BinaryOp::Less => TokenKind::Less,
            BinaryOp::LessEqual => TokenKind::LessEqual,
            BinaryOp::Greater => TokenKind::Greater,
            BinaryOp::GreaterEqual => TokenKind::GreaterEqual,
            BinaryOp::LogicalAnd => TokenKind::AndAnd,
            BinaryOp::LogicalOr => TokenKind::OrOr,
        },
    )
}

/// Whether the token at `q` is the prefix operator `op`: `-` for negation, `!` for not.
pub open spec fn prefix_token(t: Seq<Token>, q: int, op: UnaryOp) -> bool {
    0 <= q < t.len() && kind_tag(t[q].kind) == kind_tag(
        match op {
            UnaryOp::Negate => TokenKind::Minus,
            UnaryOp::Not => TokenKind::Bang,
        },
    )
}

/// Whether `e`, parsed from token `q`, can be an operand of the operators of `level`: its own
/// operator binds tighter, or it is a parenthesized group.
pub open spec fn operand_of(e: Expr, t: Seq<Token>, q: int, level: int) -> bool {
    match e.kind {
        ExprKind::Binary { op, .. } => rank(op) < level || opens_group(t, q),
        _ => true,
    }
}

/// Whether `e`, parsed from token `pos`, is a left-associative chain of the operators of
/// `level`: read from the right, each node's operator is the token at `starts[i] - 1`, its right
/// operand, parsed from `starts[i]`, is an operand of the level, and its left operand is the
/// chain of the operators before; the leftmost operand, parsed from `pos`, is an operand of the
/// level too.
pub open spec fn left_chain(e: Expr, t: Seq<Token>, pos: int, starts: Seq<int>, level: int) -> bool
    decreases starts.len(),
{
    if starts.len() == 0 {
        operand_of(e, t, pos, level)
    } else {
        match e.kind {
            ExprKind::Binary { left, op, right } => {
                &&& rank(op) == level
                &&& operator_token(t, starts.last() - 1, op)
                &&& operand_of(*right, t, starts.last(), level)
                &&& left_chain(*left, t, pos, starts.drop_last(), level)
            },
            _ => false,
        }
    }
}

/// What parsing the operators of `level` from `pos` promises besides `parsed_expr`: a
/// left-associative chain of them, which as a whole is an operand of the next level.
pub open spec fn parsed_level(r: Result<(Expr, usize), Diagnostic>, t: Seq<Token>, pos: int, level: int) -> bool {
    r matches Ok((e, next)) ==> operand_of(e, t, pos, level + 1) && exists|starts: Seq<int>|
        #[trigger] left_chain(e, t, pos, starts, level) && within(starts, pos, next as int)
}

/// Whether the positions lie strictly between `pos` and `next`.
pub open spec fn within(starts: Seq<int>, pos: int, next: int) -> bool {
    forall|i: int| 0 <= i < starts.len() ==> pos < #[trigger] starts[i] < next
}

/// The same promise for one statement.
pub open spec fn parsed_stmt(r: Result<(Stmt, usize), Diagnostic>, t: Seq<Token>, pos: int) -> bool {
    match r {
        Ok((s, next)) => pos < next < t.len() && covers(s.span, t, pos, next as int),
        Err(d) => at_token(d.span, t),
    }
}

/// An error result reported at a token.
pub open spec fn failed_at_token<T>(r: Result<T, Diagnostic>, t: Seq<Token>) -> bool {
    r matches Err(d) ==> at_token(d.span, t)
}

/// A number for each kind of token, ignoring what the token holds.
pub open spec fn kind_tag(kind: TokenKind) -> u8 {
    match kind {
        TokenKind::Identifier(..) => 0u8,
        TokenKind::String(..) => 1u8,
        TokenKind::Integer(..) => 2u8,
        TokenKind::Float(..) => 3u8,
        TokenKind::Game => 4u8,
        TokenKind::Let => 5u8,
        TokenKind::Const => 6u8,
        TokenKind::Struct => 7u8,
        TokenKind::Start => 8u8,
        TokenKind::Update => 9u8,
        TokenKind::Draw => 10u8,
        TokenKind::Fn => 11u8,
        TokenKind::Return => 12u8,
        TokenKind::If => 13u8,
        TokenKind::Else => 14u8,
        TokenKind::While => 15u8,
        TokenKind::True => 16u8,
        TokenKind::False => 17u8,
        TokenKind::I32 => 18u8,
        TokenKind::F32 => 19u8,
        TokenKind::Bool => 20u8,
        TokenKind::Void => 21u8,
        TokenKind::LeftParen => 22u8,
        TokenKind::RightParen => 23u8,
        TokenKind::LeftBrace => 24u8,
        TokenKind::RightBrace => 25u8,
        TokenKind::LeftBracket => 26u8,
        TokenKind::RightBracket => 27u8,
        TokenKind::Colon => 28u8,
        TokenKind::Comma => 29u8,
        TokenKind::Semicolon => 30u8,
        TokenKind::Dot => 31u8,
        TokenKind::Plus => 32u8,
        TokenKind::PlusEqual => 33u8,
        TokenKind::Minus => 34u8,
        TokenKind::MinusEqual => 35u8,
        TokenKind::Star => 36u8,
        TokenKind::StarEqual => 37u8,
        TokenKind::Slash => 38u8,
        TokenKind::SlashEqual => 39u8,
        TokenKind::Bang => 40u8,
        TokenKind::Equal => 41u8,
        TokenKind::EqualEqual => 42u8,
        TokenKind::BangEqual => 43u8,
        TokenKind::Less => 44u8,
        TokenKind::LessEqual => 45u8,
        TokenKind::Greater => 46u8,
        TokenKind::GreaterEqual => 47u8,
        TokenKind::AndAnd => 48u8,
        TokenKind::OrOr => 49u8,
        TokenKind::Arrow => 50u8,
        TokenKind::Eof => 51u8,
    }
}

/// The number of a token's kind.
fn tag(kind: &TokenKind) -> (t: u8)
    ensures
        t == kind_tag(*kind),
{
    match kind {
        TokenKind::Identifier(..) => 0u8,
        TokenKind::String(..) => 1u8,
        TokenKind::Integer(..) => 2u8,
        TokenKind::Float(..) => 3u8,
        TokenKind::Game => 4u8,
        TokenKind::Let => 5u8,
        TokenKind::Const => 6u8,
        TokenKind::Struct => 7u8,
        TokenKind::Start => 8u8,
        TokenKind::Update => 9u8,
        TokenKind::Draw => 10u8,
        TokenKind::Fn => 11u8,
        TokenKind::Return => 12u8,
        TokenKind::If => 13u8,
        TokenKind::Else => 14u8,
        TokenKind::While => 15u8,
        TokenKind::True => 16u8,
        TokenKind::False => 17u8,
        TokenKind::I32 => 18u8,
        TokenKind::F32 => 19u8,
        TokenKind::Bool => 20u8,
        TokenKind::Void => 21u8,
        TokenKind::LeftParen => 22u8,
        TokenKind::RightParen => 23u8,
        TokenKind::LeftBrace => 24u8,
        TokenKind::RightBrace => 25u8,
        TokenKind::LeftBracket => 26u8,
        TokenKind::RightBracket => 27u8,
        TokenKind::Colon => 28u8,
        TokenKind::Comma => 29u8,
        TokenKind::Semicolon => 30u8,
        TokenKind::Dot => 31u8,
        TokenKind::Plus => 32u8,
        TokenKind::PlusEqual => 33u8,
        TokenKind::Minus => 34u8,
        TokenKind::MinusEqual => 35u8,
        TokenKind::Star => 36u8,
        TokenKind::StarEqual => 37u8,
        TokenKind::Slash => 38u8,
        TokenKind::SlashEqual => 39u8,
        TokenKind::Bang => 40u8,
        TokenKind::Equal => 41u8,
        TokenKind::EqualEqual => 42u8,
        TokenKind::BangEqual => 43u8,
        TokenKind::Less => 44u8,
        TokenKind::LessEqual => 45u8,
        TokenKind::Greater => 46u8,
        TokenKind::GreaterEqual => 47u8,
        TokenKind::AndAnd => 48u8,
        TokenKind::OrOr => 49u8,
        TokenKind::Arrow => 50u8,
        TokenKind::Eof => 51u8,
    }
}

/// The position after the token at `pos`; `Eof` is never passed.
fn advance(tokens: &Vec<Token>, pos: usize) -> (next: usize)
    requires
        walkable(tokens@),
        pos < tokens@.len(),
    ensures
        next == if tokens@[pos as int].kind is Eof { pos as int } else { pos + 1 },
        next < tokens@.len(),
{
    if let TokenKind::Eof = tokens[pos].kind {
        pos
    } else {
        pos + 1
    }
}

/// Whether the token at `pos` has the same kind as `kind`.
fn at(tokens: &Vec<Token>, pos: usize, kind: &TokenKind) -> (found: bool)
    requires
        pos < tokens@.len(),
    ensures
        found == (kind_tag(tokens@[pos as int].kind) == kind_tag(*kind)),
{
    tag(&tokens[pos].kind) == tag(kind)
}

/// Consumes a token of `kind` if one is next.
fn take(tokens: &Vec<Token>, pos: usize, kind: &TokenKind) -> (taken: (bool, usize))
    requires
        walkable(tokens@),
        pos < tokens@.len(),
        !(*kind is Eof),
    ensures
        taken.0 == (kind_tag(tokens@[pos as int].kind) == kind_tag(*kind)),
        taken.1 == if taken.0 { pos + 1 } else { pos as int },
        taken.1 < tokens@.len(),
{
    if at(tokens, pos, kind) {
        (true, advance(tokens, pos))
    } else {
        (false, pos)
    }
}

/// The diagnostic `message` at the token at `pos`.
fn error_at(tokens: &Vec<Token>, pos: usize, message: &str) -> (error: Diagnostic)
    requires
        pos < tokens@.len(),
    ensures
        error.message@ == message@,
        error.span == tokens@[pos as int].span,
        at_token(error.span, tokens@),
{
    let error = Diagnostic::new(owned(message), tokens[pos].span);
    assert(tokens@[pos as int].span == error.span);
    error
}

/// Consumes a token of `kind`, or fails with `message` at the token found instead.
fn expect(tokens: &Vec<Token>, pos: usize, kind: &TokenKind, message: &str) -> (next: Result<
    usize,
    Diagnostic,
>)
    requires
        walkable(tokens@),
        pos < tokens@.len(),
        !(*kind is Eof),
    ensures
        match next {
            Ok(n) => n == pos + 1 && kind_tag(tokens@[pos as int].kind) == kind_tag(*kind),
            Err(d) => d.message@ == message@ && d.span == tokens@[pos as int].span && at_token(
                d.span,
                tokens@,
            ),
        },
{
    if at(tokens, pos, kind) {
        Ok(advance(tokens, pos))
    } else {
        Err(error_at(tokens, pos, message))
    }
}

/// Consumes an identifier, or fails with `message`.
fn identifier(tokens: &Vec<Token>, pos: usize, message: &str) -> (found: Result<
    (String, Span, usize),
    Diagnostic,
>)
    requires
        walkable(tokens@),
        pos < tokens@.len(),
    ensures
        match found {
            Ok((name, span, n)) => n == pos + 1 && tokens@[pos as int].kind@ == TokenKindView::Identifier(name@)
                && span == tokens@[pos as int].span,
            Err(d) => d.message@ == message@ && d.span == tokens@[pos as int].span && at_token(
                d.span,
                tokens@,
            ),
        },
{
    match &tokens[pos].kind {
        TokenKind::Identifier(name) => Ok((owned(name.as_str()), tokens[pos].span, pos + 1)),
        _ => Err(error_at(tokens, pos, message)),
    }
}

/// Consumes a `;` if one is next, giving its span.
fn optional_semicolon(tokens: &Vec<Token>, pos: usize) -> (found: (Option<Span>, usize))
    requires
        walkable(tokens@),
        pos < tokens@.len(),
    ensures
        match found.0 {
            Some(span) => found.1 == pos + 1 && tokens@[pos as int].kind is Semicolon && span
                == tokens@[pos as int].span,
            None => found.1 == pos && !(tokens@[pos as int].kind is Semicolon),
        },
{
    if let TokenKind::Semicolon = tokens[pos].kind {
        (Some(tokens[pos].span), pos + 1)
    } else {
        (None, pos)
    }
}

/// Whether `names` holds `name`.
fn contains_name(names: &Vec<String>, name: &str) -> (found: bool)
    ensures
        found == exists|i: int| 0 <= i < names@.len() && (#[trigger] names@[i])@ == name@,
{
    let mut k: usize = 0;
    while k < names.len()
        invariant
            k <= names@.len(),
            forall|i: int| 0 <= i < k ==> (#[trigger] names@[i])@ != name@,
        decreases names.len() - k,
    {
        if str_equal(names[k].as_str(), name) {
            return true;
        }
        k += 1;
    }
    false
}

/// Whether some open scope binds `name` as a value.
fn is_value_binding(scopes: &Vec<Vec<String>>, name: &str) -> (bound: bool)
    ensures
        bound == exists|i: int, j: int|
            0 <= i < scopes@.len() && 0 <= j < scopes@[i]@.len() && (#[trigger] scopes@[i]@[j])@
                == name@,
{
    let mut k: usize = 0;
    while k < scopes.len()
        invariant
            k <= scopes@.len(),
            forall|i: int, j: int|
                0 <= i < k && 0 <= j < scopes@[i]@.len() ==> (#[trigger] scopes@[i]@[j])@ != name@,
        decreases scopes.len() - k,
    {
        if contains_name(&scopes[k], name) {
            return true;
        }
        k += 1;
    }
    false
}

/// The span of `left` through `right`, for nodes built from two covered parts.
fn joined(left: Span, right: Span) -> (span: Span)
    requires
        left.source == right.source,
    ensures
        span == (Span { source: left.source, start: left.start, end: right.end }),
{
    left.merge(right)
}

/// The binary node `left op right`.
fn binary(left: Expr, op: BinaryOp, right: Expr) -> (e: Expr)
    requires
        left.span.source == right.span.source,
    ensures
        e.span == (Span { source: left.span.source, start: left.span.start, end: right.span.end }),
        e.kind == (ExprKind::Binary { left: Box::new(left), op, right: Box::new(right) }),
{
    let span = joined(left.span, right.span);
    Expr { kind: ExprKind::Binary { left: Box::new(left), op, right: Box::new(right) }, span }
}

/// expression := logical_or
fn expression(tokens: &Vec<Token>, pos: usize, structs: &Vec<String>, scopes: &Vec<Vec<String>>) -> (r: Result<
    (Expr, usize),
    Diagnostic,
>)
    requires
        walkable(tokens@),
        pos < tokens@.len(),
    ensures
        parsed_expr(r, tokens@, pos as int),
    decreases tokens@.len() - pos, 12int,
{
    logical_or(tokens, pos, structs, scopes)
}

/// logical_or := logical_and (`||` logical_and)*
fn logical_or(tokens: &Vec<Token>, pos: usize, structs: &Vec<String>, scopes: &Vec<Vec<String>>) -> (r: Result<
    (Expr, usize),
    Diagnostic,
>)
    requires
        walkable(tokens@),
        pos < tokens@.len(),
    ensures
        parsed_expr(r, tokens@, pos as int),
        parsed_level(r, tokens@, pos as int, 6),
    decreases tokens@.len() - pos, 11int,
{
    let (mut node, mut p) = logical_and(tokens, pos, structs, scopes)?;
    let ghost mut starts: Seq<int> = seq![];
    loop
        invariant
            walkable(tokens@),
            pos < p < tokens@.len(),
            covers(node.span, tokens@, pos as int, p as int),
            left_chain(node, tokens@, pos as int, starts, 6),
            operand_of(node, tokens@, pos as int, 7),
            within(starts, pos as int, p as int),
        decreases tokens@.len() - p,
    {
        let (taken, next) = take(tokens, p, &TokenKind::OrOr);
        if !taken {
            break;
        }
        let (right, after) = logical_and(tokens, next, structs, scopes)?;
        let ghost before = node;
        node = binary(node, BinaryOp::LogicalOr, right);
        proof {
            let next_starts = starts.push((next) as int);
            assert(next_starts.drop_last() =~= starts);
            assert(left_chain(before, tokens@, pos as int, starts, 6));
            starts = next_starts;
        }
        p = after;
    }
    Ok((node, p))
}

/// logical_and := equality (`&&` equality)*
fn logical_and(tokens: &Vec<Token>, pos: usize, structs: &Vec<String>, scopes: &Vec<Vec<String>>) -> (r: Result<
    (Expr, usize),
    Diagnostic,
>)
    requires
        walkable(tokens@),
        pos < tokens@.len(),
    ensures
        parsed_expr(r, tokens@, pos as int),
        parsed_level(r, tokens@, pos as int, 5),
    decreases tokens@.len() - pos, 10int,
{
    let (mut node, mut p) = equality(tokens, pos, structs, scopes)?;
    let ghost mut starts: Seq<int> = seq![];
    loop
        invariant
            walkable(tokens@),
            pos < p < tokens@.len(),
            covers(node.span, tokens@, pos as int, p as int),
            left_chain(node, tokens@, pos as int, starts, 5),
            operand_of(node, tokens@, pos as int, 6),
            within(starts, pos as int, p as int),
        decreases tokens@.len() - p,
    {
        let (taken, next) = take(tokens, p, &TokenKind::AndAnd);
        if !taken {
            break;
        }
        let (right, after) = equality(tokens, next, structs, scopes)?;
        let ghost before = node;
        node = binary(node, BinaryOp::LogicalAnd, right);
        proof {
            let next_starts = starts.push((next) as int);
            assert(next_starts.drop_last() =~= starts);
            assert(left_chain(before, tokens@, pos as int, starts, 5));
            starts = next_starts;
        }
        p = after;
    }
    Ok((node, p))
}

/// equality := comparison ((`==` | `!=`) comparison)*
fn equality(tokens: &Vec<Token>, pos: usize, structs: &Vec<String>, scopes: &Vec<Vec<String>>) -> (r: Result<
    (Expr, usize),
    Diagnostic,
>)
    requires
        walkable(tokens@),
        pos < tokens@.len(),
    ensures
        parsed_expr(r, tokens@, pos as int),
        parsed_level(r, tokens@, pos as int, 4),
    decreases tokens@.len() - pos, 9int,
{
    let (mut node, mut p) = comparison(tokens, pos, structs, scopes)?;
    let ghost mut starts: Seq<int> = seq![];
    loop
        invariant
            walkable(tokens@),
            pos < p < tokens@.len(),
            covers(node.span, tokens@, pos as int, p as int),
            left_chain(node, tokens@, pos as int, starts, 4),
            operand_of(node, tokens@, pos as int, 5),
            within(starts, pos as int, p as int),
        decreases tokens@.len() - p,
    {
        let op = if at(tokens, p, &TokenKind::EqualEqual) {
            BinaryOp::Equal
        } else if at(tokens, p, &TokenKind::BangEqual) {
            BinaryOp::NotEqual
        } else {
            break;
        };
        let (right, after) = comparison(tokens, p + 1, structs, scopes)?;
        let ghost before = node;
        node = binary(node, op, right);
        proof {
            let next_starts = starts.push((p + 1) as int);
            assert(next_starts.drop_last() =~= starts);
            assert(left_chain(before, tokens@, pos as int, starts, 4));
            starts = next_starts;
        }
        p = after;
    }
    Ok((node, p))
}

/// comparison := term ((`<` | `<=` | `>` | `>=`) term)*
fn comparison(tokens: &Vec<Token>, pos: usize, structs: &Vec<String>, scopes: &Vec<Vec<String>>) -> (r: Result<
    (Expr, usize),
    Diagnostic,
>)
    requires
        walkable(tokens@),
        pos < tokens@.len(),
    ensures
        parsed_expr(r, tokens@, pos as int),
        parsed_level(r, tokens@, pos as int, 3),
    decreases tokens@.len() - pos, 8int,
{
    let (mut node, mut p) = term(tokens, pos, structs, scopes)?;
    let ghost mut starts: Seq<int> = seq![];
    loop
        invariant
            walkable(tokens@),
            pos < p < tokens@.len(),
            covers(node.span, tokens@, pos as int, p as int),
            left_chain(node, tokens@, pos as int, starts, 3),
            operand_of(node, tokens@, pos as int, 4),
            within(starts, pos as int, p as int),
        decreases tokens@.len() - p,
    {
        let op = if at(tokens, p, &TokenKind::Less) {
            BinaryOp::Less
        } else if at(tokens, p, &TokenKind::LessEqual) {
            BinaryOp::LessEqual
        } else if at(tokens, p, &TokenKind::Greater) {
            BinaryOp::Greater
        } else if at(tokens, p, &TokenKind::GreaterEqual) {
            BinaryOp::GreaterEqual
        } else {
            break;
        };
        let (right, after) = term(tokens, p + 1, structs, scopes)?;
        let ghost before = node;
        node = binary(node, op, right);
        proof {
            let next_starts = starts.push((p + 1) as int);
            assert(next_starts.drop_last() =~= starts);
            assert(left_chain(before, tokens@, pos as int, starts, 3));
            starts = next_starts;
        }
        p = after;
    }
    Ok((node, p))
}

/// term := factor ((`+` | `-`) factor)*
fn term(tokens: &Vec<Token>, pos: usize, structs: &Vec<String>, scopes: &Vec<Vec<String>>) -> (r: Result<
    (Expr, usize),
    Diagnostic,
>)
    requires
        walkable(tokens@),
        pos < tokens@.len(),
    ensures
        parsed_expr(r, tokens@, pos as int),
        parsed_level(r, tokens@, pos as int, 2),
    decreases tokens@.len() - pos, 7int,
{
    let (mut node, mut p) = factor(tokens, pos, structs, scopes)?;
    let ghost mut starts: Seq<int> = seq![];
    loop
        invariant
            walkable(tokens@),
            pos < p < tokens@.len(),
            covers(node.span, tokens@, pos as int, p as int),
            left_chain(node, tokens@, pos as int, starts, 2),
            operand_of(node, tokens@, pos as int, 3),
            within(starts, pos as int, p as int),
        decreases tokens@.len() - p,
    {
        let op = if at(tokens, p, &TokenKind::Plus) {
            BinaryOp::Add
        } else if at(tokens, p, &TokenKind::Minus) {
            BinaryOp::Subtract
        } else {
            break;
        };
        let (right, after) = factor(tokens, p + 1, structs, scopes)?;
        let ghost before = node;
        node = binary(node, op, right);
        proof {
            let next_starts = starts.push((p + 1) as int);
            assert(next_starts.drop_last() =~= starts);
            assert(left_chain(before, tokens@, pos as int, starts, 2));
            starts = next_starts;
        }
        p = after;
    }
    Ok((node, p))
}

/// factor := unary ((`*` | `/`) unary)*
fn factor(tokens: &Vec<Token>, pos: usize, structs: &Vec<String>, scopes: &Vec<Vec<String>>) -> (r: Result<
    (Expr, usize),
    Diagnostic,
>)
    requires
        walkable(tokens@),
        pos < tokens@.len(),
    ensures
        parsed_expr(r, tokens@, pos as int),
        parsed_level(r, tokens@, pos as int, 1),
    decreases tokens@.len() - pos, 6int,
{
    let (mut node, mut p) = unary(tokens, pos, structs, scopes)?;
    let ghost mut starts: Seq<int> = seq![];
    loop
        invariant
            walkable(tokens@),
            pos < p < tokens@.len(),
            covers(node.span, tokens@, pos as int, p as int),
            left_chain(node, tokens@, pos as int, starts, 1),
            operand_of(node, tokens@, pos as int, 2),
            within(starts, pos as int, p as int),
        decreases tokens@.len() - p,
    {
        let op = if at(tokens, p, &TokenKind::Star) {
            BinaryOp::Multiply
        } else if at(tokens, p, &TokenKind::Slash) {
            BinaryOp::Divide
        } else {
            break;
        };
        let (right, after) = unary(tokens, p + 1, structs, scopes)?;
        let ghost before = node;
        node = binary(node, op, right);
        proof {
            let next_starts = starts.push((p + 1) as int);
            assert(next_starts.drop_last() =~= starts);
            assert(left_chain(before, tokens@, pos as int, starts, 1));
            starts = next_starts;
        }
        p = after;
    }
    Ok((node, p))
}

/// unary := (`-` | `!`) unary | postfix
fn unary(tokens: &Vec<Token>, pos: usize, structs: &Vec<String>, scopes: &Vec<Vec<String>>) -> (r: Result<
    (Expr, usize),
    Diagnostic,
>)
    requires
        walkable(tokens@),
        pos < tokens@.len(),
    ensures
        parsed_expr(r, tokens@, pos as int),
        r matches Ok((e, _)) ==> grouped_if_binary(e, tokens@, pos as int),
        r matches Ok((e, _)) ==> (!opens_group(tokens@, pos as int) ==> (e.kind matches ExprKind::Unary { op, operand }
            ==> prefix_token(tokens@, pos as int, op) && grouped_if_binary(*operand, tokens@, pos + 1))),
    decreases tokens@.len() - pos, 5int,
{
    let op = if at(tokens, pos, &TokenKind::Minus) {
        UnaryOp::Negate
    } else if at(tokens, pos, &TokenKind::Bang) {
        UnaryOp::Not
    } else {
        return postfix(tokens, pos, structs, scopes);
    };
    let (operand, next) = unary(tokens, pos + 1, structs, scopes)?;
    let span = joined(tokens[pos].span, operand.span);
    Ok((Expr { kind: ExprKind::Unary { op, operand: Box::new(operand) }, span }, next))
}

/// postfix := primary (`[` expression `]` | `.` identifier)*
fn postfix(tokens: &Vec<Token>, pos: usize, structs: &Vec<String>, scopes: &Vec<Vec<String>>) -> (r: Result<
    (Expr, usize),
    Diagnostic,
>)
    requires
        walkable(tokens@),
        pos < tokens@.len(),
    ensures
        parsed_expr(r, tokens@, pos as int),
        r matches Ok((e, _)) ==> grouped_if_binary(e, tokens@, pos as int),
        r matches Ok((e, _)) ==> (e.kind is Unary ==> opens_group(tokens@, pos as int)),
    decreases tokens@.len() - pos, 4int,
{
    let (mut node, mut p) = primary(tokens, pos, structs, scopes)?;
    loop
        invariant
            walkable(tokens@),
            pos < p < tokens@.len(),
            covers(node.span, tokens@, pos as int, p as int),
            grouped_if_binary(node, tokens@, pos as int),
            node.kind is Unary ==> opens_group(tokens@, pos as int),
        decreases tokens@.len() - p,
    {
        if at(tokens, p, &TokenKind::LeftBracket) {
            let (index, after) = expression(tokens, p + 1, structs, scopes)?;
            let next = expect(tokens, after, &TokenKind::RightBracket, "expected `]` after array index")?;
            let span = joined(node.span, tokens[after].span);
            node = Expr { kind: ExprKind::Index { base: Box::new(node), index: Box::new(index) }, span };
            p = next;
        } else if at(tokens, p, &TokenKind::Dot) {
            let (name, name_span, next) = identifier(tokens, p + 1, "expected a field name after `.`")?;
            let span = joined(node.span, name_span);
            node = Expr {
                kind: ExprKind::Field { base: Box::new(node), name, name_span },
                span,
            };
            p = next;
        } else {
            break;
        }
    }
    Ok((node, p))
}

/// The elements of an array literal whose `[` is at `pos - 1`, through its `]`.
fn array_elements(tokens: &Vec<Token>, pos: usize, structs: &Vec<String>, scopes: &Vec<Vec<String>>) -> (r: Result<
    (Vec<Expr>, usize),
    Diagnostic,
>)
    requires
        walkable(tokens@),
        pos < tokens@.len(),
    ensures
        match r {
            Ok((_, next)) => pos < next < tokens@.len() && tokens@[next - 1].kind is RightBracket,
            Err(d) => at_token(d.span, tokens@),
        },
    decreases tokens@.len() - pos, 13int,
{
    let mut elements: Vec<Expr> = Vec::new();
    let mut p = pos;
    if !at(tokens, p, &TokenKind::RightBracket) {
        loop
            invariant
                walkable(tokens@),
                pos <= p < tokens@.len(),
            decreases tokens@.len() - p,
        {
            let (element, after) = expression(tokens, p, structs, scopes)?;
            elements.push(element);
            let (comma, next) = take(tokens, after, &TokenKind::Comma);
            p = next;
            if !comma {
                break;
            }
            if at(tokens, p, &TokenKind::RightBracket) {
                break;
            }
        }
    }
    let next = expect(tokens, p, &TokenKind::RightBracket, "expected `]` after array literal")?;
    Ok((elements, next))
}

/// The arguments of a call whose `(` is at `pos - 1`, through its `)`.
fn arguments(tokens: &Vec<Token>, pos: usize, structs: &Vec<String>, scopes: &Vec<Vec<String>>) -> (r: Result<
    (Vec<Expr>, usize),
    Diagnostic,
>)
    requires
        walkable(tokens@),
        pos < tokens@.len(),
    ensures
        match r {
            Ok((_, next)) => pos < next < tokens@.len() && tokens@[next - 1].kind is RightParen,
            Err(d) => at_token(d.span, tokens@),
        },
    decreases tokens@.len() - pos, 13int,
{
    let mut args: Vec<Expr> = Vec::new();
    let mut p = pos;
    if !at(tokens, p, &TokenKind::RightParen) {
        loop
            invariant
                walkable(tokens@),
                pos <= p < tokens@.len(),
            decreases tokens@.len() - p,
        {
            let (arg, after) = expression(tokens, p, structs, scopes)?;
            args.push(arg);
            let (comma, next) = take(tokens, after, &TokenKind::Comma);
            p = next;
            if !comma {
                break;
            }
        }
    }
    let next = expect(tokens, p, &TokenKind::RightParen, "expected `)` after arguments")?;
    Ok((args, next))
}

/// Whether an identifier whose `{` would be at `pos` begins a struct literal: it is not a value
/// in scope, and it names a declared struct or is followed by `{ field:`.
fn looks_like_struct_literal(
    tokens: &Vec<Token>,
    pos: usize,
    name: &str,
    structs: &Vec<String>,
    scopes: &Vec<Vec<String>>,
) -> (literal: bool)
    requires
        pos < tokens@.len(),
    ensures
        literal == (tokens@[pos as int].kind is LeftBrace && !(exists|i: int, j: int|
            0 <= i < scopes@.len() && 0 <= j < scopes@[i]@.len() && (#[trigger] scopes@[i]@[j])@ == name@) && (
        (exists|i: int| 0 <= i < structs@.len() && (#[trigger] structs@[i])@ == name@) || (tokens@.len() - pos > 2
            && tokens@[pos + 1].kind is Identifier && tokens@[pos + 2].kind is Colon))),
{
    if !at(tokens, pos, &TokenKind::LeftBrace) || is_value_binding(scopes, name) {
        return false;
    }
    if contains_name(structs, name) {
        return true;
    }
    tokens.len() - pos > 2 && matches!(tokens[pos + 1].kind, TokenKind::Identifier(_)) && matches!(tokens[pos + 2].kind, TokenKind::Colon)
}

/// The field initializers of a struct literal named at `pos - 1`, from its `{` through its `}`.
fn struct_literal(tokens: &Vec<Token>, pos: usize, structs: &Vec<String>, scopes: &Vec<Vec<String>>) -> (r: Result<
    (Vec<FieldInitializer>, usize),
    Diagnostic,
>)
    requires
        walkable(tokens@),
        pos < tokens@.len(),
    ensures
        match r {
            Ok((_, next)) => pos < next < tokens@.len() && tokens@[next - 1].kind is RightBrace,
            Err(d) => at_token(d.span, tokens@),
        },
    decreases tokens@.len() - pos, 13int,
{
    let mut p = expect(tokens, pos, &TokenKind::LeftBrace, "expected `{` after struct type name")?;
    let mut fields: Vec<FieldInitializer> = Vec::new();
    while !at(tokens, p, &TokenKind::RightBrace) && !at(tokens, p, &TokenKind::Eof)
        invariant
            walkable(tokens@),
            pos < p < tokens@.len(),
        decreases tokens@.len() - p,
    {
        let (name, name_span, after_name) = identifier(tokens, p, "expected a field initializer name")?;
        let after_colon = expect(tokens, after_name, &TokenKind::Colon, "expected `:` after field initializer name")?;
        let (value, after_value) = expression(tokens, after_colon, structs, scopes)?;
        let span = joined(name_span, value.span);
        fields.push(FieldInitializer { name, value, span });
        let (_, next) = take(tokens, after_value, &TokenKind::Comma);
        p = next;
    }
    let next = expect(tokens, p, &TokenKind::RightBrace, "expected `}` after struct literal")?;
    Ok((fields, next))
}

/// primary := literal | array literal | struct literal | variable | call | conversion
///          | `(` expression `)`
fn primary(tokens: &Vec<Token>, pos: usize, structs: &Vec<String>, scopes: &Vec<Vec<String>>) -> (r: Result<
    (Expr, usize),
    Diagnostic,
>)
    requires
        walkable(tokens@),
        pos < tokens@.len(),
    ensures
        parsed_expr(r, tokens@, pos as int),
        r matches Ok((e, _)) ==> grouped_if_binary(e, tokens@, pos as int),
        r matches Ok((e, _)) ==> (e.kind is Unary ==> opens_group(tokens@, pos as int)),
    decreases tokens@.len() - pos, 3int,
{
    let span = tokens[pos].span;
    let next = advance(tokens, pos);
    match &tokens[pos].kind {
        TokenKind::Integer(value) => Ok((Expr { kind: ExprKind::I32(*value), span }, next)),
        TokenKind::Float(text) => Ok((Expr { kind: ExprKind::F32(owned(text.as_str())), span }, next)),
        TokenKind::True => Ok((Expr { kind: ExprKind::Bool(true), span }, next)),
        TokenKind::False => Ok((Expr { kind: ExprKind::Bool(false), span }, next)),
        TokenKind::LeftBracket => {
            let (elements, after) = array_elements(tokens, next, structs, scopes)?;
            let span = joined(span, tokens[after - 1].span);
            Ok((Expr { kind: ExprKind::ArrayLiteral(elements), span }, after))
        },
        TokenKind::Identifier(name) => {
            if looks_like_struct_literal(tokens, next, name.as_str(), structs, scopes) {
                let (fields, after) = struct_literal(tokens, next, structs, scopes)?;
                let span = joined(span, tokens[after - 1].span);
                return Ok((
                    Expr { kind: ExprKind::StructLiteral { name: owned(name.as_str()), fields }, span },
                    after,
                ));
            }
            let (call, after_paren) = take(tokens, next, &TokenKind::LeftParen);
            if !call {
                return Ok((Expr { kind: ExprKind::Variable(owned(name.as_str())), span }, next));
            }
            let (args, after) = arguments(tokens, after_paren, structs, scopes)?;
            let span = joined(span, tokens[after - 1].span);
            Ok((Expr { kind: ExprKind::Call { name: owned(name.as_str()), args }, span }, after))
        },
        TokenKind::I32 | TokenKind::F32 => {
            let target = if let TokenKind::I32 = tokens[pos].kind {
                ValueType::I32
            } else {
                ValueType::F32
            };
            let after_paren = expect(tokens, next, &TokenKind::LeftParen, "expected `(` after numeric conversion type")?;
            let (args, after) = arguments(tokens, after_paren, structs, scopes)?;
            let span = joined(span, tokens[after - 1].span);
            Ok((Expr { kind: ExprKind::Conversion { target, args }, span }, after))
        },
        TokenKind::LeftParen => {
            let (mut inner, after) = expression(tokens, next, structs, scopes)?;
            let end = expect(tokens, after, &TokenKind::RightParen, "expected `)` after expression")?;
            inner.span = joined(span, tokens[after].span);
            Ok((inner, end))
        },
        _ => Err(error_at(tokens, pos, "expected an expression")),
    }
}

/// value_type := `i32` | `f32` | `bool` | identifier | `[` value_type `;` length `]`
fn parse_value_type(tokens: &Vec<Token>, pos: usize) -> (r: Result<(ValueType, usize), Diagnostic>)
    requires
        walkable(tokens@),
        pos < tokens@.len(),
    ensures
        match r {
            Ok((ty, next)) => pos < next < tokens@.len() && !has_invalid_length(ty),
            Err(d) => at_token(d.span, tokens@),
        },
    decreases tokens@.len() - pos,
{
    let next = advance(tokens, pos);
    match &tokens[pos].kind {
        TokenKind::I32 => Ok((ValueType::I32, next)),
        TokenKind::F32 => Ok((ValueType::F32, next)),
        TokenKind::Bool => Ok((ValueType::Bool, next)),
        TokenKind::Identifier(name) => Ok((ValueType::Struct(owned(name.as_str())), next)),
        TokenKind::LeftBracket => {
            let (element, after_element) = parse_value_type(tokens, next)?;
            let after_semicolon = expect(
                tokens,
                after_element,
                &TokenKind::Semicolon,
                "expected `;` between the array element type and length",
            )?;
            let (negative, at_length) = take(tokens, after_semicolon, &TokenKind::Minus);
            let length = if negative {
                match &tokens[at_length].kind {
                    TokenKind::Integer(value) => ArrayLength::Literal {
                        value: -*value,
                        span: tokens[at_length].span,
                    },
                    _ => {
                        return Err(
                            error_at(tokens, at_length, "expected an integer literal after `-` in array length"),
                        );
                    },
                }
            } else {
                match &tokens[at_length].kind {
                    TokenKind::Integer(value) => ArrayLength::Literal {
                        value: *value,
                        span: tokens[at_length].span,
                    },
                    TokenKind::Identifier(name) => ArrayLength::Constant {
                        name: owned(name.as_str()),
                        span: tokens[at_length].span,
                    },
                    _ => {
                        return Err(
                            error_at(
                                tokens,
                                at_length,
                                "array length must be a positive integer literal or an `i32` constant",
                            ),
                        );
                    },
                }
            };
            let after = expect(tokens, at_length + 1, &TokenKind::RightBracket, "expected `]` after array type")?;
            Ok((ValueType::Array { element: Box::new(element), length }, after))
        },
        TokenKind::Void => Err(error_at(tokens, pos, "`void` is only valid as a function return type")),
        _ => Err(error_at(tokens, pos, "expected a scalar, struct, or fixed array type")),
    }
}

/// return_type := `void` | value_type
fn parse_return_type(tokens: &Vec<Token>, pos: usize) -> (r: Result<(ReturnType, usize), Diagnostic>)
    requires
        walkable(tokens@),
        pos < tokens@.len(),
    ensures
        match r {
            Ok((_, next)) => pos < next < tokens@.len(),
            Err(d) => at_token(d.span, tokens@),
        },
{
    let (void, next) = take(tokens, pos, &TokenKind::Void);
    if void {
        return Ok((ReturnType::Void, next));
    }
    let (ty, next) = parse_value_type(tokens, pos)?;
    Ok((ReturnType::Value(ty), next))
}

/// What parsing a block from `pos` promises: it ran through a `}` and left the open scopes as
/// they were; or it failed at a token.
pub open spec fn parsed_block(
    r: Result<(Vec<Stmt>, usize), Diagnostic>,
    t: Seq<Token>,
    pos: int,
    scopes_before: Seq<Vec<String>>,
    scopes_after: Seq<Vec<String>>,
) -> bool {
    match r {
        Ok((_, next)) => pos < next < t.len() && t[next - 1].kind is RightBrace && scopes_after.len()
            == scopes_before.len(),
        Err(d) => at_token(d.span, t),
    }
}

/// A block whose statements see `bindings` as values, as a function body does.
fn function_block(
    tokens: &Vec<Token>,
    pos: usize,
    structs: &Vec<String>,
    scopes: &mut Vec<Vec<String>>,
    bindings: Vec<String>,
) -> (r: Result<(Vec<Stmt>, usize), Diagnostic>)
    requires
        walkable(tokens@),
        pos < tokens@.len(),
    ensures
        parsed_block(r, tokens@, pos as int, old(scopes)@, final(scopes)@),
{
    scopes.push(bindings);
    let result = block(tokens, pos, structs, scopes);
    scopes.pop();
    result
}

/// block := `{` statement* `}`
fn block(tokens: &Vec<Token>, pos: usize, structs: &Vec<String>, scopes: &mut Vec<Vec<String>>) -> (r: Result<
    (Vec<Stmt>, usize),
    Diagnostic,
>)
    requires
        walkable(tokens@),
        pos < tokens@.len(),
    ensures
        parsed_block(r, tokens@, pos as int, old(scopes)@, final(scopes)@),
    decreases tokens@.len() - pos, 30int,
{
    let mut p = expect(tokens, pos, &TokenKind::LeftBrace, "expected `{` to begin block")?;
    scopes.push(Vec::new());
    let ghost depth = scopes@.len();
    let mut statements: Vec<Stmt> = Vec::new();
    while !at(tokens, p, &TokenKind::RightBrace) && !at(tokens, p, &TokenKind::Eof)
        invariant
            walkable(tokens@),
            pos < p < tokens@.len(),
            scopes@.len() == depth,
            depth == old(scopes)@.len() + 1,
        decreases tokens@.len() - p,
    {
        let (statement, next) = statement(tokens, p, structs, scopes)?;
        statements.push(statement);
        p = next;
    }
    let next = expect(tokens, p, &TokenKind::RightBrace, "expected `}` to close block")?;
    scopes.pop();
    Ok((statements, next))
}

/// statement := let | if | while | return | expression [assignment] [`;`]
fn statement(tokens: &Vec<Token>, pos: usize, structs: &Vec<String>, scopes: &mut Vec<Vec<String>>) -> (r: Result<
    (Stmt, usize),
    Diagnostic,
>)
    requires
        walkable(tokens@),
        pos < tokens@.len(),
        old(scopes)@.len() > 0,
    ensures
        parsed_stmt(r, tokens@, pos as int),
        r is Ok ==> final(scopes)@.len() == old(scopes)@.len(),
    decreases tokens@.len() - pos, 29int,
{
    if at(tokens, pos, &TokenKind::Let) {
        return let_statement(tokens, pos, structs, scopes);
    }
    if at(tokens, pos, &TokenKind::If) {
        return if_statement(tokens, pos, structs, scopes);
    }
    if at(tokens, pos, &TokenKind::While) {
        return while_statement(tokens, pos, structs, scopes);
    }
    if at(tokens, pos, &TokenKind::Return) {
        return return_statement(tokens, pos, structs, scopes);
    }
    let (expression, after) = expression(tokens, pos, structs, scopes)?;
    if matches!(
        tokens[after].kind,
        TokenKind::Equal | TokenKind::PlusEqual | TokenKind::MinusEqual | TokenKind::StarEqual
            | TokenKind::SlashEqual
    ) {
        return assignment_statement(tokens, pos, after, expression, structs, scopes);
    }
    let (semicolon, next) = optional_semicolon(tokens, after);
    let end = match semicolon {
        Some(span) => span,
        None => expression.span,
    };
    let span = joined(expression.span, end);
    Ok((Stmt { kind: StmtKind::Expr(expression), span }, next))
}

/// let := `let` identifier `:` value_type `=` expression [`;`]; the name is bound in the
/// innermost scope.
fn let_statement(tokens: &Vec<Token>, pos: usize, structs: &Vec<String>, scopes: &mut Vec<Vec<String>>) -> (r: Result<
    (Stmt, usize),
    Diagnostic,
>)
    requires
        walkable(tokens@),
        pos < tokens@.len(),
        old(scopes)@.len() > 0,
    ensures
        parsed_stmt(r, tokens@, pos as int),
        r is Ok ==> final(scopes)@.len() == old(scopes)@.len(),
    decreases tokens@.len() - pos, 28int,
{
    let after_let = expect(tokens, pos, &TokenKind::Let, "expected `let`")?;
    let (name, _, after_name) = identifier(tokens, after_let, "expected a local variable name")?;
    let after_colon = expect(tokens, after_name, &TokenKind::Colon, "expected `:` after variable name")?;
    let (ty, after_type) = parse_value_type(tokens, after_colon)?;
    let after_equal = expect(tokens, after_type, &TokenKind::Equal, "expected `=` before initializer")?;
    let (init, after_init) = expression(tokens, after_equal, structs, scopes)?;
    let (semicolon, next) = optional_semicolon(tokens, after_init);
    let end = match semicolon {
        Some(span) => span,
        None => init.span,
    };
    let mut innermost = scopes.pop().unwrap();
    innermost.push(owned(name.as_str()));
    scopes.push(innermost);
    let span = joined(tokens[pos].span, end);
    Ok((Stmt { kind: StmtKind::Let { name, ty, init }, span }, next))
}

/// assignment := target (`=` | `+=` | `-=` | `*=` | `/=`) expression [`;`], for a target that
/// runs from `pos` to `op_at`.
fn assignment_statement(
    tokens: &Vec<Token>,
    pos: usize,
    op_at: usize,
    target: Expr,
    structs: &Vec<String>,
    scopes: &Vec<Vec<String>>,
) -> (r: Result<(Stmt, usize), Diagnostic>)
    requires
        walkable(tokens@),
        pos < op_at < tokens@.len(),
        covers(target.span, tokens@, pos as int, op_at as int),
    ensures
        parsed_stmt(r, tokens@, pos as int),
{
    let op = match tokens[op_at].kind {
        TokenKind::Equal => AssignOp::Assign,
        TokenKind::PlusEqual => AssignOp::Add,
        TokenKind::MinusEqual => AssignOp::Subtract,
        TokenKind::StarEqual => AssignOp::Multiply,
        TokenKind::SlashEqual => AssignOp::Divide,
        _ => {
            return Err(error_at(tokens, op_at, "expected an assignment operator"));
        },
    };
    let (value, after_value) = expression(tokens, advance(tokens, op_at), structs, scopes)?;
    let (semicolon, next) = optional_semicolon(tokens, after_value);
    let end = match semicolon {
        Some(span) => span,
        None => value.span,
    };
    let span = joined(target.span, end);
    Ok((Stmt { kind: StmtKind::Assign { target, op, value }, span }, next))
}

/// if := `if` expression block [`else` block]
fn if_statement(tokens: &Vec<Token>, pos: usize, structs: &Vec<String>, scopes: &mut Vec<Vec<String>>) -> (r: Result<
    (Stmt, usize),
    Diagnostic,
>)
    requires
        walkable(tokens@),
        pos < tokens@.len(),
    ensures
        parsed_stmt(r, tokens@, pos as int),
        r is Ok ==> final(scopes)@.len() == old(scopes)@.len(),
    decreases tokens@.len() - pos, 28int,
{
    let after_if = expect(tokens, pos, &TokenKind::If, "expected `if`")?;
    let (condition, after_condition) = expression(tokens, after_if, structs, scopes)?;
    let (then_block, after_then) = block(tokens, after_condition, structs, scopes)?;
    let (has_else, after_else) = take(tokens, after_then, &TokenKind::Else);
    let (else_block, next) = if has_else {
        let (else_block, next) = block(tokens, after_else, structs, scopes)?;
        (Some(else_block), next)
    } else {
        (None, after_then)
    };
    let span = joined(tokens[pos].span, tokens[next - 1].span);
    Ok((Stmt { kind: StmtKind::If { condition, then_block, else_block }, span }, next))
}

/// while := `while` expression block
fn while_statement(tokens: &Vec<Token>, pos: usize, structs: &Vec<String>, scopes: &mut Vec<Vec<String>>) -> (r: Result<
    (Stmt, usize),
    Diagnostic,
>)
    requires
        walkable(tokens@),
        pos < tokens@.len(),
    ensures
        parsed_stmt(r, tokens@, pos as int),
        r is Ok ==> final(scopes)@.len() == old(scopes)@.len(),
    decreases tokens@.len() - pos, 28int,
{
    let after_while = expect(tokens, pos, &TokenKind::While, "expected `while`")?;
    let (condition, after_condition) = expression(tokens, after_while, structs, scopes)?;
    let (body, next) = block(tokens, after_condition, structs, scopes)?;
    let span = joined(tokens[pos].span, tokens[next - 1].span);
    Ok((Stmt { kind: StmtKind::While { condition, body }, span }, next))
}

/// return := `return` [expression] [`;`]; there is no value before `}` or `;`.
fn return_statement(tokens: &Vec<Token>, pos: usize, structs: &Vec<String>, scopes: &Vec<Vec<String>>) -> (r: Result<
    (Stmt, usize),
    Diagnostic,
>)
    requires
        walkable(tokens@),
        pos < tokens@.len(),
    ensures
        parsed_stmt(r, tokens@, pos as int),
{
    let after_return = expect(tokens, pos, &TokenKind::Return, "expected `return`")?;
    let (value, after_value) = if at(tokens, after_return, &TokenKind::RightBrace) || at(
        tokens,
        after_return,
        &TokenKind::Semicolon,
    ) {
        (None, after_return)
    } else {
        let (value, after_value) = expression(tokens, after_return, structs, scopes)?;
        (Some(value), after_value)
    };
    let (_, next) = optional_semicolon(tokens, after_value);
    let span = joined(tokens[pos].span, tokens[next - 1].span);
    Ok((Stmt { kind: StmtKind::Return(value), span }, next))
}

/// Whether `name` follows a `struct` keyword somewhere in the stream.
pub open spec fn declared_struct(t: Seq<Token>, name: Seq<char>) -> bool {
    exists|k: int|
        0 <= k < t.len() - 1 && (#[trigger] t[k]).kind is Struct && t[k + 1].kind@
            == TokenKindView::Identifier(name)
}

/// The names that follow a `struct` keyword at a position before `k`, in stream order.
pub open spec fn struct_names_before(t: Seq<Token>, k: int) -> Seq<Seq<char>>
    decreases k,
{
    if k <= 0 {
        seq![]
    } else {
        let earlier = struct_names_before(t, k - 1);
        let i = k - 1;
        if i + 1 < t.len() && t[i].kind is Struct {
            match t[i + 1].kind@ {
                TokenKindView::Identifier(name) => earlier.push(name),
                _ => earlier,
            }
        } else {
            earlier
        }
    }
}

/// The names that follow a `struct` keyword anywhere in the stream.
fn declared_struct_names(tokens: &Vec<Token>) -> (names: Vec<String>)
    ensures
        names@.map_values(|s: String| s@) == struct_names_before(tokens@, tokens@.len() as int),
        forall|i: int| 0 <= i < names@.len() ==> declared_struct(tokens@, #[trigger] names@[i]@),
{
    let mut names: Vec<String> = Vec::new();
    let mut k: usize = 0;
    assert(names@.map_values(|s: String| s@) =~= struct_names_before(tokens@, 0));
    while k < tokens.len() && tokens.len() - k > 1
        invariant
            k <= tokens@.len(),
            tokens@.len() >= 1 ==> k < tokens@.len(),
            names@.map_values(|s: String| s@) == struct_names_before(tokens@, k as int),
            forall|i: int| 0 <= i < names@.len() ==> declared_struct(tokens@, #[trigger] names@[i]@),
        decreases tokens.len() - k,
    {
        let ghost before = names@;
        if let TokenKind::Struct = tokens[k].kind {
            if let TokenKind::Identifier(name) = &tokens[k + 1].kind {
                let copy = owned(name.as_str());
                proof {
                    assert(tokens@[k as int].kind is Struct && tokens@[k + 1].kind@ == TokenKindView::Identifier(copy@));
                    assert(declared_struct(tokens@, copy@));
                }
                names.push(copy);
            }
        }
        assert(names@.map_values(|s: String| s@) =~= struct_names_before(tokens@, k + 1));
        k += 1;
    }
    if tokens.len() >= 1 {
        assert(struct_names_before(tokens@, tokens@.len() as int) == struct_names_before(tokens@, k as int));
    }
    names
}

/// struct := `struct` identifier `{` (identifier `:` value_type [`,`])* `}`
fn parse_struct(tokens: &Vec<Token>, pos: usize) -> (r: Result<(StructDecl, usize), Diagnostic>)
    requires
        walkable(tokens@),
        pos < tokens@.len(),
    ensures
        match r {
            Ok((decl, next)) => pos < next < tokens@.len() && covers(decl.span, tokens@, pos as int, next as int)
                && forall|k: int| 0 <= k < decl.fields@.len() ==> !has_invalid_length(#[trigger] decl.fields@[k].ty),
            Err(d) => at_token(d.span, tokens@),
        },
{
    let after_struct = expect(tokens, pos, &TokenKind::Struct, "expected `struct`")?;
    let (name, _, after_name) = identifier(tokens, after_struct, "expected a struct name")?;
    let mut p = expect(tokens, after_name, &TokenKind::LeftBrace, "expected `{` after the struct name")?;
    let mut fields: Vec<StructField> = Vec::new();
    while !at(tokens, p, &TokenKind::RightBrace) && !at(tokens, p, &TokenKind::Eof)
        invariant
            walkable(tokens@),
            pos < p < tokens@.len(),
            forall|k: int| 0 <= k < fields@.len() ==> !has_invalid_length(#[trigger] fields@[k].ty),
        decreases tokens@.len() - p,
    {
        let (field_name, field_span, after_field) = identifier(tokens, p, "expected a field name")?;
        let after_colon = expect(tokens, after_field, &TokenKind::Colon, "expected `:` after field name")?;
        let (ty, after_type) = parse_value_type(tokens, after_colon)?;
        fields.push(StructField { name: field_name, ty, span: field_span });
        let (_, next) = take(tokens, after_type, &TokenKind::Comma);
        p = next;
    }
    let next = expect(tokens, p, &TokenKind::RightBrace, "expected `}` after struct fields")?;
    let span = joined(tokens[pos].span, tokens[p].span);
    Ok((StructDecl { name, fields, span }, next))
}

/// The parts shared by constants and globals: `keyword name : type = init [;]`.
fn binding_declaration(
    tokens: &Vec<Token>,
    pos: usize,
    structs: &Vec<String>,
    scopes: &Vec<Vec<String>>,
    keyword: &TokenKind,
    keyword_message: &str,
    name_message: &str,
    colon_message: &str,
    equal_message: &str,
) -> (r: Result<(String, ValueType, Expr, Span, usize), Diagnostic>)
    requires
        walkable(tokens@),
        pos < tokens@.len(),
        !(*keyword is Eof),
    ensures
        match r {
            Ok((_, ty, _, span, next)) => pos < next < tokens@.len() && covers(span, tokens@, pos as int, next as int)
                && !has_invalid_length(ty),
            Err(d) => at_token(d.span, tokens@),
        },
{
    let after_keyword = expect(tokens, pos, keyword, keyword_message)?;
    let (name, _, after_name) = identifier(tokens, after_keyword, name_message)?;
    let after_colon = expect(tokens, after_name, &TokenKind::Colon, colon_message)?;
    let (ty, after_type) = parse_value_type(tokens, after_colon)?;
    let after_equal = expect(tokens, after_type, &TokenKind::Equal, equal_message)?;
    let (init, after_init) = expression(tokens, after_equal, structs, scopes)?;
    let (semicolon, next) = optional_semicolon(tokens, after_init);
    let end = match semicolon {
        Some(span) => span,
        None => init.span,
    };
    let span = joined(tokens[pos].span, end);
    Ok((name, ty, init, span, next))
}

/// A function's span from its first token at `pos` through the `}` before `next`.
fn function_span(tokens: &Vec<Token>, pos: usize, next: usize) -> (span: Span)
    requires
        walkable(tokens@),
        pos < next <= tokens@.len(),
    ensures
        covers(span, tokens@, pos as int, next as int),
{
    joined(tokens[pos].span, tokens[next - 1].span)
}

/// start := `start` block
fn parse_start(tokens: &Vec<Token>, pos: usize, structs: &Vec<String>, scopes: &mut Vec<Vec<String>>) -> (r: Result<
    (Function, usize),
    Diagnostic,
>)
    requires
        walkable(tokens@),
        pos < tokens@.len(),
    ensures
        match r {
            Ok((f, next)) => pos < next < tokens@.len() && covers(f.span, tokens@, pos as int, next as int)
                && function_shape(f),
            Err(d) => at_token(d.span, tokens@),
        },
{
    let after = expect(tokens, pos, &TokenKind::Start, "expected `start`")?;
    let (body, next) = function_block(tokens, after, structs, scopes, Vec::new())?;
    let function = Function {
        name: owned("start"),
        kind: FunctionKind::Start,
        params: Vec::new(),
        return_type: ReturnType::Void,
        body,
        span: function_span(tokens, pos, next),
    };
    proof {
        reveal_strlit("start");
    }
    Ok((function, next))
}

/// draw := `draw` block
fn parse_draw(tokens: &Vec<Token>, pos: usize, structs: &Vec<String>, scopes: &mut Vec<Vec<String>>) -> (r: Result<
    (Function, usize),
    Diagnostic,
>)
    requires
        walkable(tokens@),
        pos < tokens@.len(),
    ensures
        match r {
            Ok((f, next)) => pos < next < tokens@.len() && covers(f.span, tokens@, pos as int, next as int)
                && function_shape(f),
            Err(d) => at_token(d.span, tokens@),
        },
{
    let after = expect(tokens, pos, &TokenKind::Draw, "expected `draw`")?;
    let (body, next) = function_block(tokens, after, structs, scopes, Vec::new())?;
    let function = Function {
        name: owned("draw"),
        kind: FunctionKind::Draw,
        params: Vec::new(),
        return_type: ReturnType::Void,
        body,
        span: function_span(tokens, pos, next),
    };
    Ok((function, next))
}

/// update := `update` `(` identifier `:` value_type `)` block
fn parse_update(tokens: &Vec<Token>, pos: usize, structs: &Vec<String>, scopes: &mut Vec<Vec<String>>) -> (r: Result<
    (Function, usize),
    Diagnostic,
>)
    requires
        walkable(tokens@),
        pos < tokens@.len(),
    ensures
        match r {
            Ok((f, next)) => pos < next < tokens@.len() && covers(f.span, tokens@, pos as int, next as int)
                && function_shape(f),
            Err(d) => at_token(d.span, tokens@),
        },
{
    let after_update = expect(tokens, pos, &TokenKind::Update, "expected `update`")?;
    let after_paren = expect(tokens, after_update, &TokenKind::LeftParen, "expected `(` after `update`")?;
    let (name, name_span, after_name) = identifier(tokens, after_paren, "expected the frame-delta parameter name")?;
    let after_colon = expect(tokens, after_name, &TokenKind::Colon, "expected `:` after the frame-delta parameter name")?;
    let (ty, after_type) = parse_value_type(tokens, after_colon)?;
    let after_close = expect(tokens, after_type, &TokenKind::RightParen, "expected `)` after the frame-delta parameter")?;
    let mut bindings: Vec<String> = Vec::new();
    bindings.push(owned(name.as_str()));
    let (body, next) = function_block(tokens, after_close, structs, scopes, bindings)?;
    let mut params: Vec<Param> = Vec::new();
    params.push(Param { name, ty, span: name_span });
    let function = Function {
        name: owned("update"),
        kind: FunctionKind::Update,
        params,
        return_type: ReturnType::Void,
        body,
        span: function_span(tokens, pos, next),
    };
    Ok((function, next))
}

/// function := `fn` identifier `(` [param (`,` param)*] `)` `->` return_type block
fn parse_named_function(tokens: &Vec<Token>, pos: usize, structs: &Vec<String>, scopes: &mut Vec<Vec<String>>) -> (r: Result<
    (Function, usize),
    Diagnostic,
>)
    requires
        walkable(tokens@),
        pos < tokens@.len(),
    ensures
        match r {
            Ok((f, next)) => pos < next < tokens@.len() && covers(f.span, tokens@, pos as int, next as int)
                && function_shape(f),
            Err(d) => at_token(d.span, tokens@),
        },
{
    let after_fn = expect(tokens, pos, &TokenKind::Fn, "expected `fn`")?;
    let (name, _, after_name) = identifier(tokens, after_fn, "expected a function name")?;
    let mut p = expect(tokens, after_name, &TokenKind::LeftParen, "expected `(` after function name")?;
    let mut params: Vec<Param> = Vec::new();
    let mut bindings: Vec<String> = Vec::new();
    if !at(tokens, p, &TokenKind::RightParen) {
        loop
            invariant
                walkable(tokens@),
                pos < p < tokens@.len(),
            decreases tokens@.len() - p,
        {
            let (param_name, span, after_param) = identifier(tokens, p, "expected a parameter name")?;
            let after_colon = expect(tokens, after_param, &TokenKind::Colon, "expected `:` after parameter name")?;
            let (ty, after_type) = parse_value_type(tokens, after_colon)?;
            bindings.push(owned(param_name.as_str()));
            params.push(Param { name: param_name, ty, span });
            let (comma, next) = take(tokens, after_type, &TokenKind::Comma);
            p = next;
            if !comma {
                break;
            }
        }
    }
    let after_close = expect(tokens, p, &TokenKind::RightParen, "expected `)` after parameters")?;
    let after_arrow = expect(tokens, after_close, &TokenKind::Arrow, "expected `->` and a return type after parameters")?;
    let (return_type, after_type) = parse_return_type(tokens, after_arrow)?;
    let (body, next) = function_block(tokens, after_type, structs, scopes, bindings)?;
    let function = Function {
        name,
        kind: FunctionKind::Named,
        params,
        return_type,
        body,
        span: function_span(tokens, pos, next),
    };
    Ok((function, next))
}

/// The fixed form of the lifecycle functions: `start` and `draw` take nothing, `update` takes
/// one parameter, and all three return nothing under their own name.
pub open spec fn function_shape(f: Function) -> bool {
    match f.kind {
        FunctionKind::Start => f.name@ == "start"@ && f.params@.len() == 0 && f.return_type
            == ReturnType::Void,
        FunctionKind::Update => f.name@ == "update"@ && f.params@.len() == 1 && f.return_type
            == ReturnType::Void,
        FunctionKind::Draw => f.name@ == "draw"@ && f.params@.len() == 0 && f.return_type
            == ReturnType::Void,
        FunctionKind::Named => true,
    }
}

/// Whether no array length in the program's struct fields, constants or globals is marked
/// invalid: only resolution gives up on a length.
pub open spec fn lengths_unresolved_only(p: Program) -> bool {
    &&& forall|i: int| 0 <= i < p.constants@.len() ==> !has_invalid_length(#[trigger] p.constants@[i].ty)
    &&& forall|i: int| 0 <= i < p.globals@.len() ==> !has_invalid_length(#[trigger] p.globals@[i].ty)
    &&& forall|i: int, k: int|
        0 <= i < p.structs@.len() && 0 <= k < p.structs@[i].fields@.len() ==> !has_invalid_length(
            #[trigger] p.structs@[i].fields@[k].ty,
        )
}

/// Parses a whole token stream: `game` and a quoted title, an optional `;`, then top-level
/// declarations until `Eof`. The first error ends parsing and is the only one reported.
pub fn parse(tokens: Vec<Token>) -> (program: Result<Program, Vec<Diagnostic>>)
    requires
        tokens_well_formed(tokens@),
    ensures
        match program {
            Ok(p) => {
                &&& tokens@[0].kind is Game
                &&& tokens@[1].kind@ == TokenKindView::Str(p.title@)
                &&& p.title_span == tokens@[1].span
                &&& forall|i: int| 0 <= i < p.functions@.len() ==> function_shape(#[trigger] p.functions@[i])
                &&& lengths_unresolved_only(p)
                &&& p.float_bits@.len() == 0
            },
            Err(errors) => errors@.len() == 1 && at_token(errors@[0].span, tokens@),
        },
{
    let count = tokens.len();
    assert(tokens@.len() == count);
    assert(walkable(tokens@));
    match run(&tokens) {
        Ok(program) => Ok(program),
        Err(error) => {
            let mut errors: Vec<Diagnostic> = Vec::new();
            errors.push(error);
            Err(errors)
        },
    }
}

fn run(tokens: &Vec<Token>) -> (program: Result<Program, Diagnostic>)
    requires
        walkable(tokens@),
    ensures
        match program {
            Ok(p) => {
                &&& tokens@[0].kind is Game
                &&& tokens@[1].kind@ == TokenKindView::Str(p.title@)
                &&& p.title_span == tokens@[1].span
                &&& forall|i: int| 0 <= i < p.functions@.len() ==> function_shape(#[trigger] p.functions@[i])
                &&& lengths_unresolved_only(p)
                &&& p.float_bits@.len() == 0
            },
            Err(error) => at_token(error.span, tokens@),
        },
{
    let structs = declared_struct_names(tokens);
    let mut scopes: Vec<Vec<String>> = Vec::new();
    let after_game = expect(tokens, 0, &TokenKind::Game, "expected `game` at the start of the file")?;
    let title = match &tokens[after_game].kind {
        TokenKind::String(title) => owned(title.as_str()),
        _ => {
            return Err(error_at(tokens, after_game, "expected a quoted game title after `game`"));
        },
    };
    let title_span = tokens[after_game].span;
    let (_, mut p) = take(tokens, after_game + 1, &TokenKind::Semicolon);
    let mut structs_parsed: Vec<StructDecl> = Vec::new();
    let mut constants: Vec<Constant> = Vec::new();
    let mut globals: Vec<Global> = Vec::new();
    let mut functions: Vec<Function> = Vec::new();
    while !at(tokens, p, &TokenKind::Eof)
        invariant
            walkable(tokens@),
            p < tokens@.len(),
            forall|i: int| 0 <= i < functions@.len() ==> function_shape(#[trigger] functions@[i]),
            forall|i: int| 0 <= i < constants@.len() ==> !has_invalid_length(#[trigger] constants@[i].ty),
            forall|i: int| 0 <= i < globals@.len() ==> !has_invalid_length(#[trigger] globals@[i].ty),
            forall|i: int, k: int|
                0 <= i < structs_parsed@.len() && 0 <= k < structs_parsed@[i].fields@.len() ==> !has_invalid_length(
                    #[trigger] structs_parsed@[i].fields@[k].ty,
                ),
        decreases tokens@.len() - p,
    {
        if at(tokens, p, &TokenKind::Struct) {
            let (decl, next) = parse_struct(tokens, p)?;
            structs_parsed.push(decl);
            p = next;
        } else if at(tokens, p, &TokenKind::Const) {
            let (name, ty, init, span, next) = binding_declaration(
                tokens,
                p,
                &structs,
                &scopes,
                &TokenKind::Const,
                "expected `const`",
                "expected a constant name",
                "expected `:` after constant name",
                "expected `=` before constant initializer",
            )?;
            constants.push(Constant { name, ty, init, span });
            p = next;
        } else if at(tokens, p, &TokenKind::Let) {
            let (name, ty, init, span, next) = binding_declaration(
                tokens,
                p,
                &structs,
                &scopes,
                &TokenKind::Let,
                "expected `let`",
                "expected a global variable name",
                "expected `:` after variable name",
                "expected `=` before global initializer",
            )?;
            globals.push(Global { name, ty, init, span });
            p = next;
        } else {
            let (function, next) = if at(tokens, p, &TokenKind::Start) {
                parse_start(tokens, p, &structs, &mut scopes)?
            } else if at(tokens, p, &TokenKind::Update) {
                parse_update(tokens, p, &structs, &mut scopes)?
            } else if at(tokens, p, &TokenKind::Draw) {
                parse_draw(tokens, p, &structs, &mut scopes)?
            } else if at(tokens, p, &TokenKind::Fn) {
                parse_named_function(tokens, p, &structs, &mut scopes)?
            } else {
                return Err(
                    error_at(
                        tokens,
                        p,
                        "expected a top-level `struct`, `const`, `let`, `fn`, `start`, `update`, or `draw` declaration",
                    ),
                );
            };
            functions.push(function);
            p = next;
        }
    }
    Ok(Program { title, title_span, structs: structs_parsed, constants, globals, functions, float_bits: Vec::new() })
}

} // verus!
