//! Compile-time evaluation of constant and global initializers.
//!
//! Floating-point values are held as the bit patterns of finite `f32` values. A literal's bits
//! come from the program's table of literal bits; negation, comparison and the conversions
//! between `i32` and `f32` are exact. The sum, difference, product or quotient of two `f32`
//! values is left undetermined (it rests on `f32` rounding), and so is a literal missing from the
//! table: such an evaluation reports nothing, and `undetermined_initializers` lists where it
//! happened.
use vstd::prelude::*;

use crate::ast::{
    value_type_name, ArrayLength, BinaryOp, Constant, Expr, ExprKind, FieldInitializer, Global, Program, StructField,
    UnaryOp, ValueType,
};
use crate::diagnostic::{Diagnostic, Span};
use crate::source::SourceId;
use crate::sema::declarations::predefined_names;
use crate::sema::bodies::{
    global_is_invalid, has_name, invalid_constant_name, invalid_constant_names, invalid_global, listed_name,
    predefined_values, predefined_values_spec,
};
use crate::sema::{findings, StructTypeAnalysis};
use crate::sema::floats::{
    f32_bits_to_i32, i32_to_f32, i32_to_f32_bits, key_of, negate_bits, negated_bits, order_key, truncated_i32,
};
use crate::sema::inference::{find_global, find_struct, find_latest, join3};
use crate::sema::typing::{
    fits_i32, float_literal_finite, float_text_finite, is_min_magnitude, latest, latest_global, latest_struct,
    lemma_lookup_named, lookup_value, named_values, same, same_type,
};
use crate::text::{decimal, owned, push_decimal, push_signed_decimal, push_str, signed_decimal, str_equal};

verus! {

/// A value that compile-time evaluation computed.
#[derive(Debug, PartialEq)]
pub enum ConstValue {
    I32(i32),
    /// A finite `f32`, by its bit pattern.
    F32(u32),
    Bool(bool),
    Struct { name: String, fields: Box<FieldValues> },
    Array { element_type: Box<ValueType>, length: usize, elements: Box<Values> },
}

/// The elements of an array value, first to last.
#[derive(Debug, PartialEq)]
pub enum Values {
    Nil,
    Cons(Box<ConstValue>, Box<Values>),
}

/// The fields of a struct value, in declaration order.
#[derive(Debug, PartialEq)]
pub enum FieldValues {
    Nil,
    Cons(String, Box<ConstValue>, Box<FieldValues>),
}

/// The element at position `i`.
pub open spec fn values_get(vs: Values, i: int) -> Option<ConstValue>
    decreases vs,
{
    match vs {
        Values::Nil => None,
        Values::Cons(v, rest) => if i == 0 {
            Some(*v)
        } else {
            values_get(*rest, i - 1)
        },
    }
}

/// The first field named `name`.
pub open spec fn field_get(fs: FieldValues, name: Seq<char>) -> Option<ConstValue>
    decreases fs,
{
    match fs {
        FieldValues::Nil => None,
        FieldValues::Cons(n, v, rest) => if n@ == name {
            Some(*v)
        } else {
            field_get(*rest, name)
        },
    }
}

/// The type of a value.
pub open spec fn type_of(v: ConstValue) -> ValueType {
    match v {
        ConstValue::I32(_) => ValueType::I32,
        ConstValue::F32(_) => ValueType::F32,
        ConstValue::Bool(_) => ValueType::Bool,
        ConstValue::Struct { name, .. } => ValueType::Struct(name),
        ConstValue::Array { element_type, length, .. } => ValueType::Array {
            element: element_type,
            length: ArrayLength::Resolved(length),
        },
    }
}

/// What evaluating an expression gives: a value, an error with its message and span, or
/// nothing determined (the outcome rests on the number of a floating-point value).
pub enum Outcome {
    Value(ConstValue),
    Error(Seq<char>, Span),
    Unknown,
}

/// An outcome as the evaluator hands it out.
pub enum Evaluation {
    Value(ConstValue),
    Failure(Diagnostic),
    Unknown,
}

/// The outcome an evaluation result stands for.
pub open spec fn outcome(e: Evaluation) -> Outcome {
    match e {
        Evaluation::Value(v) => Outcome::Value(v),
        Evaluation::Failure(d) => Outcome::Error(d.message@, d.span),
        Evaluation::Unknown => Outcome::Unknown,
    }
}

/// An arithmetic result outside `i32`.
pub open spec fn overflow(span: Span) -> Outcome {
    Outcome::Error("constant-expression overflow"@, span)
}

/// An `i32` result, or an overflow where there is none.
pub open spec fn checked(r: Option<i32>, span: Span) -> Outcome {
    match r {
        Some(v) => Outcome::Value(ConstValue::I32(v)),
        None => overflow(span),
    }
}

/// A binary operator other than `&&` and `||` on two evaluated operands.
pub open spec fn fold_binary(l: ConstValue, op: BinaryOp, r: ConstValue, span: Span) -> Outcome {
    match (l, r) {
        (ConstValue::I32(a), ConstValue::I32(b)) => match op {
            BinaryOp::Add => checked(a.checked_add(b), span),
            BinaryOp::Subtract => checked(a.checked_sub(b), span),
            BinaryOp::Multiply => checked(a.checked_mul(b), span),
            BinaryOp::Divide => if b == 0 {
                Outcome::Error("division by zero in constant expression"@, span)
            } else {
                checked(a.checked_div(b), span)
            },
            BinaryOp::Equal => Outcome::Value(ConstValue::Bool(a == b)),
            BinaryOp::NotEqual => Outcome::Value(ConstValue::Bool(a != b)),
            BinaryOp::Less => Outcome::Value(ConstValue::Bool(a < b)),
            BinaryOp::LessEqual => Outcome::Value(ConstValue::Bool(a <= b)),
            BinaryOp::Greater => Outcome::Value(ConstValue::Bool(a > b)),
            BinaryOp::GreaterEqual => Outcome::Value(ConstValue::Bool(a >= b)),
            BinaryOp::LogicalAnd | BinaryOp::LogicalOr => Outcome::Error("Boolean operator requires `bool`"@, span),
        },
        (ConstValue::F32(a), ConstValue::F32(b)) => match op {
            BinaryOp::Divide => if order_key(b) == 0 {
                Outcome::Error("division by zero in constant expression"@, span)
            } else {
                Outcome::Unknown
            },
            BinaryOp::Add | BinaryOp::Subtract | BinaryOp::Multiply => Outcome::Unknown,
            BinaryOp::Equal => Outcome::Value(ConstValue::Bool(order_key(a) == order_key(b))),
            BinaryOp::NotEqual => Outcome::Value(ConstValue::Bool(order_key(a) != order_key(b))),
            BinaryOp::Less => Outcome::Value(ConstValue::Bool(order_key(a) < order_key(b))),
            BinaryOp::LessEqual => Outcome::Value(ConstValue::Bool(order_key(a) <= order_key(b))),
            BinaryOp::Greater => Outcome::Value(ConstValue::Bool(order_key(a) > order_key(b))),
            BinaryOp::GreaterEqual => Outcome::Value(ConstValue::Bool(order_key(a) >= order_key(b))),
            BinaryOp::LogicalAnd | BinaryOp::LogicalOr => Outcome::Error("Boolean operator requires `bool`"@, span),
        },
        (ConstValue::Bool(a), ConstValue::Bool(b)) => match op {
            BinaryOp::Equal => Outcome::Value(ConstValue::Bool(a == b)),
            BinaryOp::NotEqual => Outcome::Value(ConstValue::Bool(a != b)),
            BinaryOp::LogicalAnd => Outcome::Value(ConstValue::Bool(a && b)),
            BinaryOp::LogicalOr => Outcome::Value(ConstValue::Bool(a || b)),
            _ => Outcome::Error("operator is not valid for `bool` constants"@, span),
        },
        _ => Outcome::Error("constant-expression operands must have the same type"@, span),
    }
}

/// A conversion of an evaluated value to `target`.
pub open spec fn fold_conversion(target: ValueType, v: ConstValue, span: Span) -> Outcome {
    match (target, v) {
        (ValueType::I32, ConstValue::I32(x)) => Outcome::Value(ConstValue::I32(x)),
        (ValueType::F32, ConstValue::F32(b)) => Outcome::Value(ConstValue::F32(b)),
        (ValueType::F32, ConstValue::I32(x)) => Outcome::Value(ConstValue::F32(i32_to_f32_bits(x))),
        (ValueType::I32, ConstValue::F32(b)) => Outcome::Value(ConstValue::I32(truncated_i32(b))),
        (_, ConstValue::Bool(_)) => Outcome::Error("cannot convert `bool` to a numeric type"@, span),
        (ValueType::Bool, _) => Outcome::Error("numeric conversions may only target `i32` or `f32`"@, span),
        (ValueType::Array { .. }, _) => Outcome::Error("arrays cannot be converted to numeric types"@, span),
        (_, ConstValue::Array { .. }) => Outcome::Error("arrays cannot be converted to numeric types"@, span),
        _ => Outcome::Error("struct values cannot be converted to numeric types"@, span),
    }
}

fn failure(message: &str, span: Span) -> (e: Evaluation)
    ensures
        outcome(e) == Outcome::Error(message@, span),
{
    Evaluation::Failure(Diagnostic::new(owned(message), span))
}

fn checked_value(r: Option<i32>, span: Span) -> (e: Evaluation)
    ensures
        outcome(e) == checked(r, span),
{
    match r {
        Some(v) => Evaluation::Value(ConstValue::I32(v)),
        None => failure("constant-expression overflow", span),
    }
}

/// The values `vs`, first to last, in front of `tail`.
pub open spec fn cons_all(vs: Seq<ConstValue>, tail: Values) -> Values
    decreases vs.len(),
{
    if vs.len() == 0 {
        tail
    } else {
        Values::Cons(Box::new(vs[0]), Box::new(cons_all(vs.drop_first(), tail)))
    }
}

/// An array outcome with the values `vs` in front of its elements; any other outcome as it is.
pub open spec fn prepended(vs: Seq<ConstValue>, element: ValueType, length: usize, r: Outcome) -> Outcome {
    if vs.len() == 0 {
        r
    } else {
        match r {
            Outcome::Value(ConstValue::Array { elements, .. }) => Outcome::Value(
                ConstValue::Array { element_type: Box::new(element), length, elements: Box::new(cons_all(vs, *elements)) },
            ),
            other => other,
        }
    }
}

proof fn lemma_cons_all_push(vs: Seq<ConstValue>, v: ConstValue, tail: Values)
    ensures
        cons_all(vs.push(v), tail) == cons_all(vs, Values::Cons(Box::new(v), Box::new(tail))),
    decreases vs.len(),
{
    if vs.len() > 0 {
        assert(vs.push(v).drop_first() =~= vs.drop_first().push(v));
        assert(vs.push(v)[0] == vs[0]);
        lemma_cons_all_push(vs.drop_first(), v, tail);
    } else {
        lemma_cons_one(v, tail);
        assert(vs.push(v) =~= seq![v]);
    }
}

proof fn lemma_cons_one(v: ConstValue, tail: Values)
    ensures
        cons_all(seq![v], tail) == Values::Cons(Box::new(v), Box::new(tail)),
{
    let one = seq![v];
    assert(one.len() == 1);
    assert(one[0] == v);
    assert(one.drop_first() =~= Seq::<ConstValue>::empty());
    assert(cons_all(one.drop_first(), tail) == tail);
}

proof fn lemma_prepended_push(vs: Seq<ConstValue>, v: ConstValue, element: ValueType, length: usize, r: Outcome)
    ensures
        prepended(vs, element, length, prepended(seq![v], element, length, r)) == prepended(vs.push(v), element, length, r),
{
    match r {
        Outcome::Value(ConstValue::Array { elements, .. }) => {
            lemma_cons_all_push(vs, v, *elements);
            lemma_cons_one(v, *elements);
        },
        _ => {},
    }
}

/// Applies a binary operator other than `&&` and `||` to two evaluated operands.
pub fn binary_value(l: ConstValue, op: BinaryOp, r: ConstValue, span: Span) -> (e: Evaluation)
    ensures
        outcome(e) == fold_binary(l, op, r, span),
{
    match (l, r) {
        (ConstValue::I32(a), ConstValue::I32(b)) => match op {
            BinaryOp::Add => checked_value(a.checked_add(b), span),
            BinaryOp::Subtract => checked_value(a.checked_sub(b), span),
            BinaryOp::Multiply => checked_value(a.checked_mul(b), span),
            BinaryOp::Divide => if b == 0 {
                failure("division by zero in constant expression", span)
            } else {
                checked_value(a.checked_div(b), span)
            },
            BinaryOp::Equal => Evaluation::Value(ConstValue::Bool(a == b)),
            BinaryOp::NotEqual => Evaluation::Value(ConstValue::Bool(a != b)),
            BinaryOp::Less => Evaluation::Value(ConstValue::Bool(a < b)),
            BinaryOp::LessEqual => Evaluation::Value(ConstValue::Bool(a <= b)),
            BinaryOp::Greater => Evaluation::Value(ConstValue::Bool(a > b)),
            BinaryOp::GreaterEqual => Evaluation::Value(ConstValue::Bool(a >= b)),
            BinaryOp::LogicalAnd | BinaryOp::LogicalOr => failure("Boolean operator requires `bool`", span),
        },
        (ConstValue::F32(a), ConstValue::F32(b)) => match op {
            BinaryOp::Divide => if key_of(b) == 0 {
                failure("division by zero in constant expression", span)
            } else {
                Evaluation::Unknown
            },
            BinaryOp::Add | BinaryOp::Subtract | BinaryOp::Multiply => Evaluation::Unknown,
            BinaryOp::Equal => Evaluation::Value(ConstValue::Bool(key_of(a) == key_of(b))),
            BinaryOp::NotEqual => Evaluation::Value(ConstValue::Bool(key_of(a) != key_of(b))),
            BinaryOp::Less => Evaluation::Value(ConstValue::Bool(key_of(a) < key_of(b))),
            BinaryOp::LessEqual => Evaluation::Value(ConstValue::Bool(key_of(a) <= key_of(b))),
            BinaryOp::Greater => Evaluation::Value(ConstValue::Bool(key_of(a) > key_of(b))),
            BinaryOp::GreaterEqual => Evaluation::Value(ConstValue::Bool(key_of(a) >= key_of(b))),
            BinaryOp::LogicalAnd | BinaryOp::LogicalOr => failure("Boolean operator requires `bool`", span),
        },
        (ConstValue::Bool(a), ConstValue::Bool(b)) => match op {
            BinaryOp::Equal => Evaluation::Value(ConstValue::Bool(a == b)),
            BinaryOp::NotEqual => Evaluation::Value(ConstValue::Bool(a != b)),
            BinaryOp::LogicalAnd => Evaluation::Value(ConstValue::Bool(a && b)),
            BinaryOp::LogicalOr => Evaluation::Value(ConstValue::Bool(a || b)),
            _ => failure("operator is not valid for `bool` constants", span),
        },
        _ => failure("constant-expression operands must have the same type", span),
    }
}

/// Converts an evaluated value to `target`.
pub fn conversion_value(target: &ValueType, v: ConstValue, span: Span) -> (e: Evaluation)
    ensures
        outcome(e) == fold_conversion(*target, v, span),
{
    match (target, v) {
        (ValueType::I32, ConstValue::I32(x)) => Evaluation::Value(ConstValue::I32(x)),
        (ValueType::F32, ConstValue::F32(b)) => Evaluation::Value(ConstValue::F32(b)),
        (ValueType::F32, ConstValue::I32(x)) => Evaluation::Value(ConstValue::F32(i32_to_f32(x))),
        (ValueType::I32, ConstValue::F32(b)) => Evaluation::Value(ConstValue::I32(f32_bits_to_i32(b))),
        (_, ConstValue::Bool(_)) => failure("cannot convert `bool` to a numeric type", span),
        (ValueType::Bool, _) => failure("numeric conversions may only target `i32` or `f32`", span),
        (ValueType::Array { .. }, _) => failure("arrays cannot be converted to numeric types", span),
        (_, ConstValue::Array { .. }) => failure("arrays cannot be converted to numeric types", span),
        _ => failure("struct values cannot be converted to numeric types", span),
    }
}

/// A copy of a value.
pub fn copy_value(v: &ConstValue) -> (c: ConstValue)
    ensures
        c == *v,
    decreases v,
{
    match v {
        ConstValue::I32(x) => ConstValue::I32(*x),
        ConstValue::F32(b) => ConstValue::F32(*b),
        ConstValue::Bool(b) => ConstValue::Bool(*b),
        ConstValue::Struct { name, fields } => {
            let copied = copy_fields(&**fields);
            ConstValue::Struct { name: name.clone(), fields: Box::new(copied) }
        },
        ConstValue::Array { element_type, length, elements } => {
            let ty: ValueType = (**element_type).clone();
            let copied = copy_values(&**elements);
            ConstValue::Array { element_type: Box::new(ty), length: *length, elements: Box::new(copied) }
        },
    }
}

fn copy_values(vs: &Values) -> (c: Values)
    ensures
        c == *vs,
    decreases vs,
{
    match vs {
        Values::Nil => Values::Nil,
        Values::Cons(v, rest) => {
            let first = copy_value(&**v);
            let others = copy_values(&**rest);
            Values::Cons(Box::new(first), Box::new(others))
        },
    }
}

fn copy_fields(fs: &FieldValues) -> (c: FieldValues)
    ensures
        c == *fs,
    decreases fs,
{
    match fs {
        FieldValues::Nil => FieldValues::Nil,
        FieldValues::Cons(name, v, rest) => {
            let value = copy_value(&**v);
            let others = copy_fields(&**rest);
            FieldValues::Cons(name.clone(), Box::new(value), Box::new(others))
        },
    }
}

/// The element at position `i`, if there is one.
pub fn value_at(vs: &Values, i: usize) -> (found: Option<ConstValue>)
    ensures
        found == values_get(*vs, i as int),
    decreases vs,
{
    match vs {
        Values::Nil => None,
        Values::Cons(v, rest) => if i == 0 {
            Some(copy_value(&**v))
        } else {
            value_at(&**rest, i - 1)
        },
    }
}

/// The first field named `name`, if there is one.
pub fn field_value(fs: &FieldValues, name: &str) -> (found: Option<ConstValue>)
    ensures
        found == field_get(*fs, name@),
    decreases fs,
{
    match fs {
        FieldValues::Nil => None,
        FieldValues::Cons(n, v, rest) => if crate::text::str_equal(n.as_str(), name) {
            Some(copy_value(&**v))
        } else {
            field_value(&**rest, name)
        },
    }
}

/// The type of a value.
pub fn value_type(v: &ConstValue) -> (ty: ValueType)
    ensures
        ty == type_of(*v),
{
    match v {
        ConstValue::I32(_) => ValueType::I32,
        ConstValue::F32(_) => ValueType::F32,
        ConstValue::Bool(_) => ValueType::Bool,
        ConstValue::Struct { name, .. } => ValueType::Struct(name.clone()),
        ConstValue::Array { element_type, length, .. } => {
            let element: ValueType = (**element_type).clone();
            ValueType::Array { element: Box::new(element), length: ArrayLength::Resolved(*length) }
        },
    }
}

// ---------------------------------------------------------------------------------------------
// Evaluating expressions

/// How far the evaluation of a constant has got.
#[derive(Clone, Copy, Debug, PartialEq, Eq, Structural)]
pub enum Visit {
    Visiting,
    Complete,
    Failed,
    /// Its outcome rests on the number of a floating-point value.
    Undetermined,
}

/// Which initializers are being evaluated: those of constants, which may name other constants
/// and evaluate them on demand, or those of globals, which see the values found before.
#[derive(Clone, Copy, Debug, PartialEq, Eq, Structural)]
pub enum Phase {
    Constants,
    Globals,
}

/// What the evaluator knows: the values of the predefined constants and of the constants
/// evaluated so far, how far each constant's evaluation got, and the constants under
/// evaluation, outermost first. A later entry for a name replaces an earlier one.
pub struct EvalState {
    pub values: Seq<(Seq<char>, ConstValue)>,
    pub visits: Seq<(Seq<char>, Visit)>,
    pub stack: Seq<Seq<char>>,
}

/// The state evaluation starts from: only the predefined constants have values.
pub open spec fn initial_state() -> EvalState {
    EvalState {
        values: predefined_values_spec().map_values(|e: (Seq<char>, i32)| (e.0, ConstValue::I32(e.1))),
        visits: seq![],
        stack: seq![],
    }
}

/// The latest constant named `name`.
pub open spec fn definition(cs: Seq<Constant>, name: Seq<char>) -> Option<Constant>
    decreases cs.len(),
{
    if cs.len() == 0 {
        None
    } else if cs.last().name@ == name {
        Some(cs.last())
    } else {
        definition(cs.drop_last(), name)
    }
}

/// Whether the program declares a global named `name`.
pub open spec fn is_global(p: Program, name: Seq<char>) -> bool {
    latest_global(p.globals@, name) is Some
}

/// The position of the first entry of `stack` from `i` on that is `name`, or 0 where there is
/// none.
pub open spec fn first_index(stack: Seq<Seq<char>>, name: Seq<char>, i: int) -> int
    decreases stack.len() - i,
{
    if i < 0 || i >= stack.len() {
        0
    } else if stack[i] == name {
        i
    } else {
        first_index(stack, name, i + 1)
    }
}

/// Each name followed by ` -> `.
pub open spec fn arrows(names: Seq<Seq<char>>) -> Seq<char>
    decreases names.len(),
{
    if names.len() == 0 {
        seq![]
    } else {
        arrows(names.drop_last()) + names.last() + " -> "@
    }
}

/// The message for a constant `name` met again while it is under evaluation: the constants
/// from its first entry on the stack on, then `name` again, joined by ` -> `.
pub open spec fn cycle_message(stack: Seq<Seq<char>>, name: Seq<char>) -> Seq<char> {
    "cyclic constant definition: "@ + arrows(stack.subrange(first_index(stack, name, 0), stack.len() as int)) + name
}

/// The span of an error that has no place in the source.
pub open spec fn origin() -> Span {
    Span { source: SourceId(0), start: 0, end: 0 }
}

/// A constant's outcome checked against its declared type.
pub open spec fn declared(c: Constant, r: Outcome) -> Outcome {
    match r {
        Outcome::Value(v) => if same(type_of(v), c.ty) {
            r
        } else {
            Outcome::Error(
                "constant `"@ + c.name@ + "` has declared type `"@ + value_type_name(c.ty)
                    + "`, but its initializer evaluates to `"@ + value_type_name(type_of(v)) + "`"@,
                c.init.span,
            )
        },
        _ => r,
    }
}

/// The state after the evaluation of `name` ended with `r`.
pub open spec fn finished(st: EvalState, name: Seq<char>, r: Outcome) -> EvalState {
    let stack = if st.stack.len() == 0 {
        st.stack
    } else {
        st.stack.drop_last()
    };
    match r {
        Outcome::Value(v) => EvalState {
            values: st.values.push((name, v)),
            visits: st.visits.push((name, Visit::Complete)),
            stack,
        },
        Outcome::Error(..) => EvalState { values: st.values, visits: st.visits.push((name, Visit::Failed)), stack },
        Outcome::Unknown => EvalState {
            values: st.values,
            visits: st.visits.push((name, Visit::Undetermined)),
            stack,
        },
    }
}

/// Evaluates the constant `name` on demand: its known value, or its definition's initializer,
/// evaluated at most `budget` constants deep.
pub open spec fn named(p: Program, st: EvalState, budget: nat, name: String) -> (EvalState, Outcome)
    decreases 2 * budget, p, 0int,
{
    match lookup_value(st.values, name@) {
        Some(v) => (st, Outcome::Value(v)),
        None => match definition(p.constants@, name@) {
            None => (st, Outcome::Error("unknown constant `"@ + name@ + "`"@, origin())),
            Some(c) => if invalid_constant_name(p, name@) {
                (st, Outcome::Error("constant `"@ + name@ + "` has an invalid initializer"@, c.span))
            } else {
                match lookup_value(st.visits, name@) {
                    Some(Visit::Visiting) => (st, Outcome::Error(cycle_message(st.stack, name@), c.span)),
                    Some(Visit::Failed) => (
                        st,
                        Outcome::Error("constant `"@ + name@ + "` depends on an invalid constant"@, c.span),
                    ),
                    // Never reached: a complete constant has a value.
                    Some(Visit::Complete) => (st, Outcome::Unknown),
                    Some(Visit::Undetermined) => (st, Outcome::Unknown),
                    None => if budget == 0 {
                        (st, Outcome::Unknown)
                    } else {
                        let entered = EvalState {
                            values: st.values,
                            visits: st.visits.push((name@, Visit::Visiting)),
                            stack: st.stack.push(name@),
                        };
                        let (after, r) = typed(p, entered, (budget - 1) as nat, c.init, c.ty, Phase::Constants);
                        let checked = declared(c, r);
                        (finished(after, name@, checked), checked)
                    },
                }
            }
        },
    }
}

/// Evaluates `e` as a value of type `expected`: struct and array literals against the type,
/// anything else as a leaf.
pub open spec fn typed(p: Program, st: EvalState, budget: nat, e: Expr, expected: ValueType, phase: Phase) -> (
    EvalState,
    Outcome,
)
    decreases 2 * budget + 1, e, 2int,
{
    match e.kind {
        ExprKind::StructLiteral { name, fields } => match expected {
            ValueType::Struct(expected_name) => if name@ != expected_name@ {
                (
                    st,
                    Outcome::Error(
                        "expected struct `"@ + expected_name@ + "`, found struct literal `"@ + name@ + "`"@,
                        e.span,
                    ),
                )
            } else {
                match latest_struct(p.structs@, name@) {
                    None => (st, Outcome::Error("unknown struct type `"@ + name@ + "`"@, e.span)),
                    Some(decl) => typed_fields(p, st, budget, fields@, name, decl.fields@, 0, e.span, phase),
                }
            },
            _ => (st, Outcome::Error("struct literal requires a matching struct type annotation"@, e.span)),
        },
        ExprKind::ArrayLiteral(elements) => match expected {
            ValueType::Array { element, length: ArrayLength::Resolved(n) } => if elements@.len() != n {
                (
                    st,
                    Outcome::Error(
                        "expected array length "@ + decimal(n as nat) + ", found "@ + decimal(elements@.len())
                            + " elements"@,
                        e.span,
                    ),
                )
            } else {
                typed_elements(p, st, budget, elements@, 0, *element, n, phase)
            },
            _ => (st, Outcome::Error("array literal requires an array type annotation"@, e.span)),
        },
        _ => leaf(p, st, budget, e, phase),
    }
}

/// The position of the first initializer of field `name`.
pub open spec fn first_initializer(inits: Seq<FieldInitializer>, name: Seq<char>) -> Option<int>
    decreases inits.len(),
{
    if inits.len() == 0 {
        None
    } else if inits[0].name@ == name {
        Some(0)
    } else {
        match first_initializer(inits.drop_first(), name) {
            Some(j) => Some(j + 1),
            None => None,
        }
    }
}

pub proof fn lemma_first_initializer(inits: Seq<FieldInitializer>, name: Seq<char>)
    ensures
        match first_initializer(inits, name) {
            Some(j) => 0 <= j < inits.len() && inits[j].name@ == name
                && forall|i: int| 0 <= i < j ==> (#[trigger] inits[i]).name@ != name,
            None => forall|i: int| 0 <= i < inits.len() ==> (#[trigger] inits[i]).name@ != name,
        },
    decreases inits.len(),
{
    if inits.len() > 0 {
        lemma_first_initializer(inits.drop_first(), name);
        assert forall|i: int| 1 <= i < inits.len() implies inits[i] == inits.drop_first()[i - 1] by {}
    }
}

/// Evaluates the fields of a literal of struct `name`, from declared field `k` on, each from
/// its first initializer.
pub open spec fn typed_fields(
    p: Program,
    st: EvalState,
    budget: nat,
    inits: Seq<FieldInitializer>,
    name: String,
    fields: Seq<StructField>,
    k: int,
    span: Span,
    phase: Phase,
) -> (EvalState, Outcome)
    decreases 2 * budget + 1, inits, fields.len() - k + 1,
{
    if k < 0 || k >= fields.len() {
        (st, Outcome::Value(ConstValue::Struct { name, fields: Box::new(FieldValues::Nil) }))
    } else {
        let field = fields[k];
        match first_initializer(inits, field.name@) {
            None => (
                st,
                Outcome::Error("missing initializer for field `"@ + field.name@ + "` of `"@ + name@ + "`"@, span),
            ),
            Some(j) => {
                proof {
                    lemma_first_initializer(inits, field.name@);
                }
                let (s1, r) = typed(p, st, budget, inits[j].value, field.ty, phase);
                match r {
                    Outcome::Value(v) => {
                        let (s2, rest) = typed_fields(p, s1, budget, inits, name, fields, k + 1, span, phase);
                        match rest {
                            Outcome::Value(ConstValue::Struct { fields: tail, .. }) => (
                                s2,
                                Outcome::Value(
                                    ConstValue::Struct {
                                        name,
                                        fields: Box::new(FieldValues::Cons(field.name, Box::new(v), tail)),
                                    },
                                ),
                            ),
                            other => (s2, other),
                        }
                    },
                    other => (s1, other),
                }
            },
        }
    }
}

/// Evaluates the elements of an array literal from position `k` on.
pub open spec fn typed_elements(
    p: Program,
    st: EvalState,
    budget: nat,
    elements: Seq<Expr>,
    k: int,
    element: ValueType,
    length: usize,
    phase: Phase,
) -> (EvalState, Outcome)
    decreases 2 * budget + 1, elements, elements.len() - k + 1,
{
    if k < 0 || k >= elements.len() {
        (
            st,
            Outcome::Value(
                ConstValue::Array { element_type: Box::new(element), length, elements: Box::new(Values::Nil) },
            ),
        )
    } else {
        let (s1, r) = typed(p, st, budget, elements[k], element, phase);
        match r {
            Outcome::Value(v) => {
                let (s2, rest) = typed_elements(p, s1, budget, elements, k + 1, element, length, phase);
                match rest {
                    Outcome::Value(ConstValue::Array { elements: tail, .. }) => (
                        s2,
                        Outcome::Value(
                            ConstValue::Array {
                                element_type: Box::new(element),
                                length,
                                elements: Box::new(Values::Cons(Box::new(v), tail)),
                            },
                        ),
                    ),
                    other => (s2, other),
                }
            },
            other => (s1, other),
        }
    }
}

/// Evaluates an expression that is not a struct or array literal. For a constant's
/// initializer, a name of a constant is evaluated on demand, and a global or a call refused.
pub open spec fn leaf(p: Program, st: EvalState, budget: nat, e: Expr, phase: Phase) -> (EvalState, Outcome)
    decreases 2 * budget + 1, e, 1int,
{
    match phase {
        Phase::Constants => match e.kind {
            ExprKind::Variable(name) => match lookup_value(st.values, name@) {
                Some(v) => (st, Outcome::Value(v)),
                None => if definition(p.constants@, name@) is Some {
                    named(p, st, budget, name)
                } else if is_global(p, name@) {
                    (
                        st,
                        Outcome::Error("constant expressions cannot reference mutable global `"@ + name@ + "`"@, e.span),
                    )
                } else {
                    (st, Outcome::Error("`"@ + name@ + "` is not a compile-time constant"@, e.span))
                },
            },
            ExprKind::Call { name, .. } => (
                st,
                Outcome::Error("constant expressions cannot call function `"@ + name@ + "`"@, e.span),
            ),
            _ => plain(p, st, budget, e, e.span, phase),
        },
        Phase::Globals => plain(p, st, budget, e, e.span, phase),
    }
}

/// What a global initializer finds for `name`: a value found before, nothing determined for an
/// undetermined constant, or an error at `at`.
pub open spec fn global_lookup(st: EvalState, p: Program, name: Seq<char>, at: Span) -> Outcome {
    match lookup_value(st.values, name) {
        Some(v) => Outcome::Value(v),
        None => if lookup_value(st.visits, name) == Some(Visit::Undetermined) {
            Outcome::Unknown
        } else if is_global(p, name) {
            Outcome::Error("global initializers cannot reference mutable global `"@ + name + "`"@, at)
        } else {
            Outcome::Error("`"@ + name + "` is not a compile-time constant"@, at)
        },
    }
}

/// The message for a constant index outside an array of `length` elements.
pub open spec fn out_of_bounds(index: i32, length: usize, span: Span) -> Outcome {
    Outcome::Error(
        "constant index "@ + signed_decimal(index as int) + " is out of bounds for length "@ + decimal(length as nat),
        span,
    )
}

/// Indexing an evaluated value with an evaluated index.
pub open spec fn fold_index(base: ConstValue, index: ConstValue, span: Span) -> Outcome {
    match index {
        ConstValue::I32(i) => match base {
            ConstValue::Array { length, elements, .. } => if i < 0 {
                out_of_bounds(i, length, span)
            } else {
                match values_get(*elements, i as int) {
                    Some(v) => Outcome::Value(v),
                    None => out_of_bounds(i, length, span),
                }
            },
            _ => Outcome::Error("only arrays can be indexed"@, span),
        },
        _ => Outcome::Error("array index must be i32"@, span),
    }
}

/// Reading field `name` of an evaluated value.
pub open spec fn fold_field(base: ConstValue, name: Seq<char>, span: Span) -> Outcome {
    match base {
        ConstValue::Struct { name: struct_name, fields } => match field_get(*fields, name) {
            Some(v) => Outcome::Value(v),
            None => Outcome::Error("type `"@ + struct_name@ + "` has no field named `"@ + name + "`"@, span),
        },
        _ => Outcome::Error("only struct values have fields"@, span),
    }
}

/// A unary operator on an evaluated operand.
pub open spec fn fold_unary(op: UnaryOp, v: ConstValue, span: Span) -> Outcome {
    match (op, v) {
        (UnaryOp::Negate, ConstValue::I32(x)) => if x == i32::MIN {
            overflow(span)
        } else {
            Outcome::Value(ConstValue::I32((-x) as i32))
        },
        (UnaryOp::Negate, ConstValue::F32(b)) => Outcome::Value(ConstValue::F32(negated_bits(b))),
        (UnaryOp::Not, ConstValue::Bool(b)) => Outcome::Value(ConstValue::Bool(!b)),
        (UnaryOp::Negate, _) => Outcome::Error("unary `-` requires a numeric constant"@, span),
        (UnaryOp::Not, _) => Outcome::Error("unary `!` requires `bool`"@, span),
    }
}

/// The right operand of `&&` (`and`) or `||`, evaluated to `r`, as the operator's result.
pub open spec fn logical_right(and: bool, r: Outcome, span: Span) -> Outcome {
    match r {
        Outcome::Value(ConstValue::Bool(b)) => Outcome::Value(ConstValue::Bool(b)),
        Outcome::Value(_) => logical_error(and, span),
        other => other,
    }
}

/// The error for a non-`bool` operand of `&&` (`and`) or `||`.
pub open spec fn logical_error(and: bool, span: Span) -> Outcome {
    if and {
        Outcome::Error("`&&` requires `bool` constants"@, span)
    } else {
        Outcome::Error("`||` requires `bool` constants"@, span)
    }
}

/// Evaluates an expression by its form. A name goes to the constant on demand (constants) or to
/// the values found before (globals); errors for a name are reported at `at`.
pub open spec fn plain(p: Program, st: EvalState, budget: nat, e: Expr, at: Span, phase: Phase) -> (EvalState, Outcome)
    decreases 2 * budget + 1, e, 0int,
{
    match e.kind {
        ExprKind::I32(v) => if fits_i32(v) {
            (st, Outcome::Value(ConstValue::I32(v as i32)))
        } else {
            (st, Outcome::Error("integer literal does not fit in `i32`"@, e.span))
        },
        ExprKind::F32(text) => if float_text_finite(text@) {
            match latest(p.float_bits@, text@) {
                Some(bits) => (st, Outcome::Value(ConstValue::F32(bits))),
                None => (st, Outcome::Unknown),
            }
        } else {
            (st, Outcome::Error("floating-point constant must be finite"@, e.span))
        },
        ExprKind::Bool(b) => (st, Outcome::Value(ConstValue::Bool(b))),
        ExprKind::ArrayLiteral(_) => (st, Outcome::Error("array literal requires an explicit array type annotation"@, e.span)),
        ExprKind::StructLiteral { name, .. } => (
            st,
            Outcome::Error("struct literal `"@ + name@ + "` requires its declared struct type"@, e.span),
        ),
        ExprKind::Variable(name) => match phase {
            Phase::Constants => if is_global(p, name@) {
                (st, Outcome::Error("constant expressions cannot reference mutable global `"@ + name@ + "`"@, at))
            } else {
                named(p, st, budget, name)
            },
            Phase::Globals => (st, global_lookup(st, p, name@, at)),
        },
        ExprKind::Index { base, index } => {
            let (s1, b) = plain(p, st, budget, *base, at, phase);
            match b {
                Outcome::Value(bv) => {
                    let (s2, i) = plain(p, s1, budget, *index, at, phase);
                    match i {
                        Outcome::Value(iv) => (s2, fold_index(bv, iv, e.span)),
                        other => (s2, other),
                    }
                },
                other => (s1, other),
            }
        },
        ExprKind::Field { base, name, .. } => {
            let (s1, b) = plain(p, st, budget, *base, at, phase);
            match b {
                Outcome::Value(bv) => (s1, fold_field(bv, name@, e.span)),
                other => (s1, other),
            }
        },
        ExprKind::Call { name, .. } => (
            st,
            Outcome::Error("constant expressions cannot call function `"@ + name@ + "`"@, e.span),
        ),
        ExprKind::Conversion { target, args } => if args@.len() != 1 {
            (
                st,
                Outcome::Error(
                    "conversion to `"@ + value_type_name(target) + "` expects 1 argument, but received "@ + decimal(
                        args@.len(),
                    ),
                    e.span,
                ),
            )
        } else {
            let (s1, r) = plain(p, st, budget, args@[0], at, phase);
            match r {
                Outcome::Value(v) => (s1, fold_conversion(target, v, args@[0].span)),
                other => (s1, other),
            }
        },
        ExprKind::Unary { op, operand } => if op == UnaryOp::Negate && is_min_magnitude(*operand) {
            (st, Outcome::Value(ConstValue::I32(i32::MIN)))
        } else {
            let (s1, r) = plain(p, st, budget, *operand, at, phase);
            match r {
                Outcome::Value(v) => (s1, fold_unary(op, v, e.span)),
                other => (s1, other),
            }
        },
        ExprKind::Binary { left, op, right } => {
            let (s1, l) = plain(p, st, budget, *left, at, phase);
            match l {
                Outcome::Value(lv) => if op == BinaryOp::LogicalAnd || op == BinaryOp::LogicalOr {
                    let and = op == BinaryOp::LogicalAnd;
                    match lv {
                        ConstValue::Bool(b) => if b != and {
                            (s1, Outcome::Value(ConstValue::Bool(b)))
                        } else {
                            let (s2, r) = plain(p, s1, budget, *right, at, phase);
                            (s2, logical_right(and, r, e.span))
                        },
                        _ => (s1, logical_error(and, e.span)),
                    }
                } else {
                    let (s2, r) = plain(p, s1, budget, *right, at, phase);
                    match r {
                        Outcome::Value(rv) => (s2, fold_binary(lv, op, rv, e.span)),
                        other => (s2, other),
                    }
                },
                other => (s1, other),
            }
        },
    }
}

// ---------------------------------------------------------------------------------------------
// Global initializers leave the state as it is

proof fn lemma_globals_typed(p: Program, st: EvalState, budget: nat, e: Expr, expected: ValueType)
    ensures
        typed(p, st, budget, e, expected, Phase::Globals).0 == st,
    decreases e, 2int,
{
    match e.kind {
        ExprKind::StructLiteral { name, fields } => match expected {
            ValueType::Struct(expected_name) => if name@ == expected_name@ {
                match latest_struct(p.structs@, name@) {
                    Some(decl) => lemma_globals_fields(p, st, budget, fields@, name, decl.fields@, 0, e.span),
                    None => {},
                }
            },
            _ => {},
        },
        ExprKind::ArrayLiteral(elements) => match expected {
            ValueType::Array { element, length: ArrayLength::Resolved(n) } => if elements@.len() == n {
                lemma_globals_elements(p, st, budget, elements@, 0, *element, n);
            },
            _ => {},
        },
        _ => lemma_globals_leaf(p, st, budget, e),
    }
}

proof fn lemma_globals_fields(
    p: Program,
    st: EvalState,
    budget: nat,
    inits: Seq<FieldInitializer>,
    name: String,
    fields: Seq<StructField>,
    k: int,
    span: Span,
)
    ensures
        typed_fields(p, st, budget, inits, name, fields, k, span, Phase::Globals).0 == st,
    decreases inits, fields.len() - k + 1,
{
    if 0 <= k < fields.len() {
        let field = fields[k];
        match first_initializer(inits, field.name@) {
            Some(j) => {
                lemma_first_initializer(inits, field.name@);
                lemma_globals_typed(p, st, budget, inits[j].value, field.ty);
                lemma_globals_fields(p, st, budget, inits, name, fields, k + 1, span);
            },
            None => {},
        }
    }
}

proof fn lemma_globals_elements(
    p: Program,
    st: EvalState,
    budget: nat,
    elements: Seq<Expr>,
    k: int,
    element: ValueType,
    length: usize,
)
    ensures
        typed_elements(p, st, budget, elements, k, element, length, Phase::Globals).0 == st,
    decreases elements, elements.len() - k + 1,
{
    if 0 <= k < elements.len() {
        lemma_globals_typed(p, st, budget, elements[k], element);
        lemma_globals_elements(p, st, budget, elements, k + 1, element, length);
    }
}

proof fn lemma_globals_leaf(p: Program, st: EvalState, budget: nat, e: Expr)
    ensures
        leaf(p, st, budget, e, Phase::Globals).0 == st,
    decreases e, 1int,
{
    lemma_globals_plain(p, st, budget, e, e.span);
}

proof fn lemma_globals_plain(p: Program, st: EvalState, budget: nat, e: Expr, at: Span)
    ensures
        plain(p, st, budget, e, at, Phase::Globals).0 == st,
    decreases e, 0int,
{
    match e.kind {
        ExprKind::Index { base, index } => {
            lemma_globals_plain(p, st, budget, *base, at);
            lemma_globals_plain(p, st, budget, *index, at);
        },
        ExprKind::Field { base, .. } => lemma_globals_plain(p, st, budget, *base, at),
        ExprKind::Conversion { args, .. } => if args@.len() == 1 {
            lemma_globals_plain(p, st, budget, args@[0], at);
        },
        ExprKind::Unary { operand, .. } => lemma_globals_plain(p, st, budget, *operand, at),
        ExprKind::Binary { left, right, .. } => {
            lemma_globals_plain(p, st, budget, *left, at);
            lemma_globals_plain(p, st, budget, *right, at);
        },
        _ => {},
    }
}

// ---------------------------------------------------------------------------------------------
// Recorded values have their constants' declared types

/// Whether a recorded value has the declared type of the latest constant with its name.
pub open spec fn entry_typed(p: Program, entry: (Seq<char>, ConstValue)) -> bool {
    match definition(p.constants@, entry.0) {
        Some(c) => same(type_of(entry.1), c.ty),
        None => false,
    }
}

/// Whether the values recorded before position `n` are predefined constants' and every value
/// recorded from `n` on has its constant's declared type.
pub open spec fn typed_from(p: Program, values: Seq<(Seq<char>, ConstValue)>, n: int) -> bool {
    &&& 0 <= n <= values.len()
    &&& forall|i: int| 0 <= i < n ==> predefined_names().contains(#[trigger] values[i].0)
    &&& forall|i: int| n <= i < values.len() ==> #[trigger] entry_typed(p, values[i])
}

pub proof fn lemma_named_keeps_types(p: Program, st: EvalState, budget: nat, name: String, n: int)
    requires
        typed_from(p, st.values, n),
    ensures
        typed_from(p, named(p, st, budget, name).0.values, n),
    decreases 2 * budget, p, 0int,
{
    if lookup_value(st.values, name@) is None {
        match definition(p.constants@, name@) {
            Some(c) => if !invalid_constant_name(p, name@) && lookup_value(st.visits, name@) is None && budget > 0 {
                let entered = EvalState {
                    values: st.values,
                    visits: st.visits.push((name@, Visit::Visiting)),
                    stack: st.stack.push(name@),
                };
                lemma_typed_keeps_types(p, entered, (budget - 1) as nat, c.init, c.ty, Phase::Constants, n);
                let (after, r) = typed(p, entered, (budget - 1) as nat, c.init, c.ty, Phase::Constants);
                let checked = declared(c, r);
                let done = finished(after, name@, checked);
                match checked {
                    Outcome::Value(v) => {
                        assert(entry_typed(p, (name@, v)));
                        assert forall|i: int| n <= i < done.values.len() implies #[trigger] entry_typed(
                            p,
                            done.values[i],
                        ) by {
                            if i < after.values.len() {
                                assert(done.values[i] == after.values[i]);
                            }
                        }
                        assert forall|i: int| 0 <= i < n implies predefined_names().contains(
                            #[trigger] done.values[i].0,
                        ) by {
                            assert(done.values[i] == after.values[i]);
                        }
                    },
                    _ => {},
                }
            },
            None => {},
        }
    }
}

pub proof fn lemma_typed_keeps_types(
    p: Program,
    st: EvalState,
    budget: nat,
    e: Expr,
    expected: ValueType,
    phase: Phase,
    n: int,
)
    requires
        typed_from(p, st.values, n),
    ensures
        typed_from(p, typed(p, st, budget, e, expected, phase).0.values, n),
    decreases 2 * budget + 1, e, 2int,
{
    match e.kind {
        ExprKind::StructLiteral { name, fields } => match expected {
            ValueType::Struct(expected_name) => if name@ == expected_name@ {
                match latest_struct(p.structs@, name@) {
                    Some(decl) => lemma_fields_keep_types(p, st, budget, fields@, name, decl.fields@, 0, e.span, phase, n),
                    None => {},
                }
            },
            _ => {},
        },
        ExprKind::ArrayLiteral(elements) => match expected {
            ValueType::Array { element, length: ArrayLength::Resolved(len) } => if elements@.len() == len {
                lemma_elements_keep_types(p, st, budget, elements@, 0, *element, len, phase, n);
            },
            _ => {},
        },
        _ => lemma_leaf_keeps_types(p, st, budget, e, phase, n),
    }
}

pub proof fn lemma_fields_keep_types(
    p: Program,
    st: EvalState,
    budget: nat,
    inits: Seq<FieldInitializer>,
    name: String,
    fields: Seq<StructField>,
    k: int,
    span: Span,
    phase: Phase,
    n: int,
)
    requires
        typed_from(p, st.values, n),
    ensures
        typed_from(p, typed_fields(p, st, budget, inits, name, fields, k, span, phase).0.values, n),
    decreases 2 * budget + 1, inits, fields.len() - k + 1,
{
    if 0 <= k < fields.len() {
        let field = fields[k];
        match first_initializer(inits, field.name@) {
            Some(j) => {
                lemma_first_initializer(inits, field.name@);
                lemma_typed_keeps_types(p, st, budget, inits[j].value, field.ty, phase, n);
                let (s1, r) = typed(p, st, budget, inits[j].value, field.ty, phase);
                lemma_fields_keep_types(p, s1, budget, inits, name, fields, k + 1, span, phase, n);
            },
            None => {},
        }
    }
}

pub proof fn lemma_elements_keep_types(
    p: Program,
    st: EvalState,
    budget: nat,
    elements: Seq<Expr>,
    k: int,
    element: ValueType,
    length: usize,
    phase: Phase,
    n: int,
)
    requires
        typed_from(p, st.values, n),
    ensures
        typed_from(p, typed_elements(p, st, budget, elements, k, element, length, phase).0.values, n),
    decreases 2 * budget + 1, elements, elements.len() - k + 1,
{
    if 0 <= k < elements.len() {
        lemma_typed_keeps_types(p, st, budget, elements[k], element, phase, n);
        let (s1, r) = typed(p, st, budget, elements[k], element, phase);
        lemma_elements_keep_types(p, s1, budget, elements, k + 1, element, length, phase, n);
    }
}

pub proof fn lemma_leaf_keeps_types(p: Program, st: EvalState, budget: nat, e: Expr, phase: Phase, n: int)
    requires
        typed_from(p, st.values, n),
    ensures
        typed_from(p, leaf(p, st, budget, e, phase).0.values, n),
    decreases 2 * budget + 1, e, 1int,
{
    match phase {
        Phase::Constants => match e.kind {
            ExprKind::Variable(name) => lemma_named_keeps_types(p, st, budget, name, n),
            ExprKind::Call { .. } => {},
            _ => lemma_plain_keeps_types(p, st, budget, e, e.span, phase, n),
        },
        Phase::Globals => lemma_plain_keeps_types(p, st, budget, e, e.span, phase, n),
    }
}

pub proof fn lemma_plain_keeps_types(p: Program, st: EvalState, budget: nat, e: Expr, at: Span, phase: Phase, n: int)
    requires
        typed_from(p, st.values, n),
    ensures
        typed_from(p, plain(p, st, budget, e, at, phase).0.values, n),
    decreases 2 * budget + 1, e, 0int,
{
    match e.kind {
        ExprKind::Variable(name) => if phase == Phase::Constants {
            lemma_named_keeps_types(p, st, budget, name, n);
        },
        ExprKind::Index { base, index } => {
            lemma_plain_keeps_types(p, st, budget, *base, at, phase, n);
            let (s1, b) = plain(p, st, budget, *base, at, phase);
            lemma_plain_keeps_types(p, s1, budget, *index, at, phase, n);
        },
        ExprKind::Field { base, .. } => lemma_plain_keeps_types(p, st, budget, *base, at, phase, n),
        ExprKind::Conversion { args, .. } => if args@.len() == 1 {
            lemma_plain_keeps_types(p, st, budget, args@[0], at, phase, n);
        },
        ExprKind::Unary { operand, .. } => lemma_plain_keeps_types(p, st, budget, *operand, at, phase, n),
        ExprKind::Binary { left, right, .. } => {
            lemma_plain_keeps_types(p, st, budget, *left, at, phase, n);
            let (s1, l) = plain(p, st, budget, *left, at, phase);
            lemma_plain_keeps_types(p, s1, budget, *right, at, phase, n);
        },
        _ => {},
    }
}

// ---------------------------------------------------------------------------------------------
// Evaluation only adds values, and records a failure only on the way to an error

/// Whether every name whose evaluation completed has a recorded value.
pub open spec fn complete_has_value(st: EvalState) -> bool {
    forall|x: Seq<char>|
        #[trigger] lookup_value(st.visits, x) == Some(Visit::Complete) ==> lookup_value(st.values, x) is Some
}

/// Whether `after` keeps every value of `before` and a value for every completed name, and,
/// unless the outcome `r` is an error, records no failure that `before` did not.
pub open spec fn grows(before: EvalState, after: EvalState, r: Outcome) -> bool {
    &&& forall|x: Seq<char>|
        lookup_value(before.values, x) is Some ==> #[trigger] lookup_value(after.values, x) is Some
    &&& complete_has_value(before) ==> complete_has_value(after)
    &&& !(r is Error) ==> forall|x: Seq<char>|
        #[trigger] lookup_value(after.visits, x) == Some(Visit::Failed) ==> lookup_value(before.visits, x) == Some(
            Visit::Failed,
        )
}

proof fn lemma_grows_chain(a: EvalState, b: EvalState, c: EvalState, r1: Outcome, r2: Outcome, r: Outcome)
    requires
        grows(a, b, r1),
        grows(b, c, r2),
        !(r is Error) ==> !(r1 is Error) && !(r2 is Error),
    ensures
        grows(a, c, r),
{
    assert forall|x: Seq<char>| lookup_value(a.values, x) is Some implies #[trigger] lookup_value(c.values, x) is Some by {
        assert(lookup_value(b.values, x) is Some);
    }
    if !(r is Error) {
        assert forall|x: Seq<char>| #[trigger] lookup_value(c.visits, x) == Some(Visit::Failed) implies lookup_value(
            a.visits,
            x,
        ) == Some(Visit::Failed) by {
            assert(lookup_value(b.visits, x) == Some(Visit::Failed));
        }
    }
}

proof fn lemma_grows_same(st: EvalState, r: Outcome)
    ensures
        grows(st, st, r),
{
}

pub proof fn lemma_named_grows(p: Program, st: EvalState, budget: nat, name: String)
    ensures
        grows(st, named(p, st, budget, name).0, named(p, st, budget, name).1),
    decreases 2 * budget, p, 0int,
{
    if lookup_value(st.values, name@) is None {
        match definition(p.constants@, name@) {
            Some(c) => if !invalid_constant_name(p, name@) && lookup_value(st.visits, name@) is None && budget > 0 {
                let entered = EvalState {
                    values: st.values,
                    visits: st.visits.push((name@, Visit::Visiting)),
                    stack: st.stack.push(name@),
                };
                assert(entered.visits.drop_last() =~= st.visits);
                assert(complete_has_value(st) ==> complete_has_value(entered)) by {
                    if complete_has_value(st) {
                        assert forall|x: Seq<char>| #[trigger] lookup_value(entered.visits, x) == Some(Visit::Complete) implies lookup_value(
                            entered.values,
                            x,
                        ) is Some by {
                            if x != name@ {
                                assert(lookup_value(st.visits, x) == Some(Visit::Complete));
                            }
                        }
                    }
                }
                lemma_typed_grows(p, entered, (budget - 1) as nat, c.init, c.ty, Phase::Constants);
                let (after, r) = typed(p, entered, (budget - 1) as nat, c.init, c.ty, Phase::Constants);
                let checked = declared(c, r);
                let done = finished(after, name@, checked);
                assert(!(checked is Error) ==> !(r is Error));
                assert(done.visits.drop_last() =~= after.visits);
                match checked {
                    Outcome::Value(v) => {
                        assert(done.values.drop_last() =~= after.values);
                    },
                    _ => {
                        assert(done.values == after.values);
                    },
                }
                assert forall|x: Seq<char>| lookup_value(st.values, x) is Some implies #[trigger] lookup_value(done.values, x) is Some by {
                    assert(lookup_value(after.values, x) is Some);
                }
                if complete_has_value(st) {
                    assert forall|x: Seq<char>| #[trigger] lookup_value(done.visits, x) == Some(Visit::Complete) implies lookup_value(
                        done.values,
                        x,
                    ) is Some by {
                        if x != name@ {
                            assert(lookup_value(after.visits, x) == Some(Visit::Complete));
                            assert(lookup_value(after.values, x) is Some);
                        }
                    }
                }
                if !(checked is Error) {
                    assert forall|x: Seq<char>| #[trigger] lookup_value(done.visits, x) == Some(Visit::Failed) implies lookup_value(
                        st.visits,
                        x,
                    ) == Some(Visit::Failed) by {
                        assert(x != name@);
                        assert(lookup_value(after.visits, x) == Some(Visit::Failed));
                        assert(lookup_value(entered.visits, x) == Some(Visit::Failed));
                    }
                }
            },
            None => {},
        }
    }
}

pub proof fn lemma_typed_grows(p: Program, st: EvalState, budget: nat, e: Expr, expected: ValueType, phase: Phase)
    ensures
        grows(st, typed(p, st, budget, e, expected, phase).0, typed(p, st, budget, e, expected, phase).1),
    decreases 2 * budget + 1, e, 2int,
{
    match e.kind {
        ExprKind::StructLiteral { name, fields } => match expected {
            ValueType::Struct(expected_name) => if name@ == expected_name@ {
                match latest_struct(p.structs@, name@) {
                    Some(decl) => lemma_fields_grow(p, st, budget, fields@, name, decl.fields@, 0, e.span, phase),
                    None => {},
                }
            },
            _ => {},
        },
        ExprKind::ArrayLiteral(elements) => match expected {
            ValueType::Array { element, length: ArrayLength::Resolved(len) } => if elements@.len() == len {
                lemma_elements_grow(p, st, budget, elements@, 0, *element, len, phase);
            },
            _ => {},
        },
        _ => lemma_leaf_grows(p, st, budget, e, phase),
    }
}

pub proof fn lemma_fields_grow(
    p: Program,
    st: EvalState,
    budget: nat,
    inits: Seq<FieldInitializer>,
    name: String,
    fields: Seq<StructField>,
    k: int,
    span: Span,
    phase: Phase,
)
    ensures
        grows(
            st,
            typed_fields(p, st, budget, inits, name, fields, k, span, phase).0,
            typed_fields(p, st, budget, inits, name, fields, k, span, phase).1,
        ),
    decreases 2 * budget + 1, inits, fields.len() - k + 1,
{
    if 0 <= k < fields.len() {
        let field = fields[k];
        match first_initializer(inits, field.name@) {
            Some(j) => {
                lemma_first_initializer(inits, field.name@);
                lemma_typed_grows(p, st, budget, inits[j].value, field.ty, phase);
                let (s1, r) = typed(p, st, budget, inits[j].value, field.ty, phase);
                match r {
                    Outcome::Value(_) => {
                        lemma_fields_grow(p, s1, budget, inits, name, fields, k + 1, span, phase);
                        let (s2, rest) = typed_fields(p, s1, budget, inits, name, fields, k + 1, span, phase);
                        let out = typed_fields(p, st, budget, inits, name, fields, k, span, phase).1;
                        lemma_grows_chain(st, s1, s2, r, rest, out);
                    },
                    _ => {},
                }
            },
            None => {},
        }
    }
}

pub proof fn lemma_elements_grow(
    p: Program,
    st: EvalState,
    budget: nat,
    elements: Seq<Expr>,
    k: int,
    element: ValueType,
    length: usize,
    phase: Phase,
)
    ensures
        grows(
            st,
            typed_elements(p, st, budget, elements, k, element, length, phase).0,
            typed_elements(p, st, budget, elements, k, element, length, phase).1,
        ),
    decreases 2 * budget + 1, elements, elements.len() - k + 1,
{
    if 0 <= k < elements.len() {
        lemma_typed_grows(p, st, budget, elements[k], element, phase);
        let (s1, r) = typed(p, st, budget, elements[k], element, phase);
        match r {
            Outcome::Value(_) => {
                lemma_elements_grow(p, s1, budget, elements, k + 1, element, length, phase);
                let (s2, rest) = typed_elements(p, s1, budget, elements, k + 1, element, length, phase);
                let out = typed_elements(p, st, budget, elements, k, element, length, phase).1;
                lemma_grows_chain(st, s1, s2, r, rest, out);
            },
            _ => {},
        }
    }
}

pub proof fn lemma_leaf_grows(p: Program, st: EvalState, budget: nat, e: Expr, phase: Phase)
    ensures
        grows(st, leaf(p, st, budget, e, phase).0, leaf(p, st, budget, e, phase).1),
    decreases 2 * budget + 1, e, 1int,
{
    match phase {
        Phase::Constants => match e.kind {
            ExprKind::Variable(name) => lemma_named_grows(p, st, budget, name),
            ExprKind::Call { .. } => {},
            _ => lemma_plain_grows(p, st, budget, e, e.span, phase),
        },
        Phase::Globals => lemma_plain_grows(p, st, budget, e, e.span, phase),
    }
}

pub proof fn lemma_plain_grows(p: Program, st: EvalState, budget: nat, e: Expr, at: Span, phase: Phase)
    ensures
        grows(st, plain(p, st, budget, e, at, phase).0, plain(p, st, budget, e, at, phase).1),
    decreases 2 * budget + 1, e, 0int,
{
    let out = plain(p, st, budget, e, at, phase).1;
    match e.kind {
        ExprKind::Variable(name) => if phase == Phase::Constants {
            lemma_named_grows(p, st, budget, name);
        },
        ExprKind::Index { base, index } => {
            lemma_plain_grows(p, st, budget, *base, at, phase);
            let (s1, b) = plain(p, st, budget, *base, at, phase);
            if b is Value {
                lemma_plain_grows(p, s1, budget, *index, at, phase);
                let (s2, i) = plain(p, s1, budget, *index, at, phase);
                lemma_grows_chain(st, s1, s2, b, i, out);
            }
        },
        ExprKind::Field { base, .. } => lemma_plain_grows(p, st, budget, *base, at, phase),
        ExprKind::Conversion { args, .. } => if args@.len() == 1 {
            lemma_plain_grows(p, st, budget, args@[0], at, phase);
        },
        ExprKind::Unary { op, operand } => lemma_plain_grows(p, st, budget, *operand, at, phase),
        ExprKind::Binary { left, op, right } => {
            lemma_plain_grows(p, st, budget, *left, at, phase);
            let (s1, l) = plain(p, st, budget, *left, at, phase);
            if l is Value {
                let lv = l->Value_0;
                let short = (op == BinaryOp::LogicalAnd || op == BinaryOp::LogicalOr) && !(lv matches ConstValue::Bool(
                    b,
                ) && b == (op == BinaryOp::LogicalAnd));
                if short {
                    lemma_grows_chain(st, s1, s1, l, l, out);
                } else {
                    lemma_plain_grows(p, s1, budget, *right, at, phase);
                    let (s2, r) = plain(p, s1, budget, *right, at, phase);
                    lemma_grows_chain(st, s1, s2, l, r, out);
                }
            }
        },
        _ => {},
    }
}

// ---------------------------------------------------------------------------------------------
// The depth budget is never exhausted

/// What evaluation on demand relies on: the constants under evaluation are distinct names of
/// constants, each recorded as under evaluation, and the budget reaches as deep as there are
/// constants not under evaluation.
pub open spec fn evaluation_ready(p: Program, st: EvalState, budget: nat) -> bool {
    &&& st.stack.no_duplicates()
    &&& forall|i: int| 0 <= i < st.stack.len() ==> definition(p.constants@, #[trigger] st.stack[i]) is Some
    &&& forall|i: int|
        0 <= i < st.stack.len() ==> lookup_value(st.visits, #[trigger] st.stack[i]) == Some(Visit::Visiting)
    &&& budget + st.stack.len() >= p.constants@.len()
}

/// Whether `after` has the stack of `before` and keeps the visit of every name that had one.
pub open spec fn keeps_visits(before: EvalState, after: EvalState) -> bool {
    &&& after.stack == before.stack
    &&& forall|x: Seq<char>|
        lookup_value(before.visits, x) is Some ==> #[trigger] lookup_value(after.visits, x) == lookup_value(
            before.visits,
            x,
        )
}

proof fn lemma_ready_after(p: Program, st: EvalState, after: EvalState, budget: nat)
    requires
        evaluation_ready(p, st, budget),
        keeps_visits(st, after),
    ensures
        evaluation_ready(p, after, budget),
{
    assert forall|i: int| 0 <= i < after.stack.len() implies lookup_value(after.visits, #[trigger] after.stack[i])
        == Some(Visit::Visiting) by {
        assert(lookup_value(st.visits, st.stack[i]) is Some);
    }
}

proof fn lemma_keeps_visits_chain(a: EvalState, b: EvalState, c: EvalState)
    requires
        keeps_visits(a, b),
        keeps_visits(b, c),
    ensures
        keeps_visits(a, c),
{
    assert forall|x: Seq<char>| lookup_value(a.visits, x) is Some implies #[trigger] lookup_value(c.visits, x)
        == lookup_value(a.visits, x) by {
        assert(lookup_value(b.visits, x) == lookup_value(a.visits, x));
    }
}

proof fn lemma_definition_named(cs: Seq<Constant>, name: Seq<char>)
    requires
        definition(cs, name) is Some,
    ensures
        cs.map_values(|c: Constant| c.name@).contains(name),
    decreases cs.len(),
{
    let names = cs.map_values(|c: Constant| c.name@);
    if cs.last().name@ == name {
        assert(names[cs.len() - 1] == name);
    } else {
        lemma_definition_named(cs.drop_last(), name);
        let earlier = cs.drop_last().map_values(|c: Constant| c.name@);
        let j = choose|j: int| 0 <= j < earlier.len() && earlier[j] == name;
        assert(names[j] == earlier[j]);
    }
}

/// Distinct names of constants are no more than the constants.
proof fn lemma_distinct_names_bound(p: Program, s: Seq<Seq<char>>)
    requires
        s.no_duplicates(),
        forall|i: int| 0 <= i < s.len() ==> definition(p.constants@, #[trigger] s[i]) is Some,
    ensures
        s.len() <= p.constants@.len(),
{
    let names = p.constants@.map_values(|c: Constant| c.name@);
    s.unique_seq_to_set();
    names.lemma_cardinality_of_set();
    assert forall|x: Seq<char>| s.to_set().contains(x) implies names.to_set().contains(x) by {
        let i = choose|i: int| 0 <= i < s.len() && s[i] == x;
        lemma_definition_named(p.constants@, s[i]);
    }
    vstd::set_lib::lemma_len_subset(s.to_set(), names.to_set());
}

pub proof fn lemma_named_budget(p: Program, st: EvalState, budget: nat, name: String)
    requires
        evaluation_ready(p, st, budget),
    ensures
        named(p, st, budget, name) == named(p, st, budget + 1, name),
        keeps_visits(st, named(p, st, budget, name).0),
    decreases 2 * budget, p, 0int,
{
    if lookup_value(st.values, name@) is None {
        match definition(p.constants@, name@) {
            Some(c) => if !invalid_constant_name(p, name@) && lookup_value(st.visits, name@) is None {
                assert(!st.stack.contains(name@)) by {
                    if st.stack.contains(name@) {
                        let i = choose|i: int| 0 <= i < st.stack.len() && st.stack[i] == name@;
                        assert(lookup_value(st.visits, st.stack[i]) == Some(Visit::Visiting));
                    }
                }
                let pushed = st.stack.push(name@);
                assert(pushed.no_duplicates()) by {
                    assert forall|i: int, j: int| 0 <= i < pushed.len() && 0 <= j < pushed.len() && i != j implies pushed[i]
                        != pushed[j] by {
                        if i < st.stack.len() && j < st.stack.len() {
                            assert(pushed[i] == st.stack[i] && pushed[j] == st.stack[j]);
                        } else if i < st.stack.len() {
                            assert(pushed[i] == st.stack[i]);
                        } else if j < st.stack.len() {
                            assert(pushed[j] == st.stack[j]);
                        }
                    }
                }
                assert forall|i: int| 0 <= i < pushed.len() implies definition(p.constants@, #[trigger] pushed[i]) is Some by {
                    if i < st.stack.len() {
                        assert(pushed[i] == st.stack[i]);
                    }
                }
                lemma_distinct_names_bound(p, pushed);
                assert(budget >= 1);
                let entered = EvalState {
                    values: st.values,
                    visits: st.visits.push((name@, Visit::Visiting)),
                    stack: pushed,
                };
                assert(entered.visits.drop_last() =~= st.visits);
                assert(entered.visits.last() == (name@, Visit::Visiting));
                assert forall|i: int| 0 <= i < entered.stack.len() implies lookup_value(
                    entered.visits,
                    #[trigger] entered.stack[i],
                ) == Some(Visit::Visiting) by {
                    if i < st.stack.len() {
                        assert(entered.stack[i] == st.stack[i]);
                        assert(st.stack[i] != name@);
                        assert(lookup_value(st.visits, st.stack[i]) == Some(Visit::Visiting));
                    } else {
                        assert(entered.stack[i] == name@);
                    }
                }
                let b = (budget - 1) as nat;
                assert(evaluation_ready(p, entered, b));
                lemma_typed_budget(p, entered, b, c.init, c.ty, Phase::Constants);
                assert(((budget + 1) - 1) as nat == b + 1);
                let (after, r) = typed(p, entered, b, c.init, c.ty, Phase::Constants);
                let done = finished(after, name@, declared(c, r));
                assert(after.stack == pushed);
                assert(pushed.drop_last() =~= st.stack);
                assert forall|x: Seq<char>| lookup_value(st.visits, x) is Some implies #[trigger] lookup_value(done.visits, x)
                    == lookup_value(st.visits, x) by {
                    assert(x != name@);
                    assert(lookup_value(entered.visits, x) == lookup_value(st.visits, x));
                    assert(lookup_value(after.visits, x) == lookup_value(st.visits, x));
                    match declared(c, r) {
                        Outcome::Value(v) => {
                            assert(done.visits.drop_last() =~= after.visits);
                        },
                        Outcome::Error(..) => {
                            assert(done.visits.drop_last() =~= after.visits);
                        },
                        Outcome::Unknown => {
                            assert(done.visits.drop_last() =~= after.visits);
                        },
                    }
                    assert(lookup_value(after.visits, x) == lookup_value(entered.visits, x));
                }
            },
            None => {},
        }
    }
}

pub proof fn lemma_typed_budget(p: Program, st: EvalState, budget: nat, e: Expr, expected: ValueType, phase: Phase)
    requires
        evaluation_ready(p, st, budget),
    ensures
        typed(p, st, budget, e, expected, phase) == typed(p, st, budget + 1, e, expected, phase),
        keeps_visits(st, typed(p, st, budget, e, expected, phase).0),
    decreases 2 * budget + 1, e, 2int,
{
    match e.kind {
        ExprKind::StructLiteral { name, fields } => match expected {
            ValueType::Struct(expected_name) => if name@ == expected_name@ {
                match latest_struct(p.structs@, name@) {
                    Some(decl) => lemma_fields_budget(p, st, budget, fields@, name, decl.fields@, 0, e.span, phase),
                    None => {},
                }
            },
            _ => {},
        },
        ExprKind::ArrayLiteral(elements) => match expected {
            ValueType::Array { element, length: ArrayLength::Resolved(len) } => if elements@.len() == len {
                lemma_elements_budget(p, st, budget, elements@, 0, *element, len, phase);
            },
            _ => {},
        },
        _ => lemma_leaf_budget(p, st, budget, e, phase),
    }
}

pub proof fn lemma_fields_budget(
    p: Program,
    st: EvalState,
    budget: nat,
    inits: Seq<FieldInitializer>,
    name: String,
    fields: Seq<StructField>,
    k: int,
    span: Span,
    phase: Phase,
)
    requires
        evaluation_ready(p, st, budget),
    ensures
        typed_fields(p, st, budget, inits, name, fields, k, span, phase) == typed_fields(
            p,
            st,
            budget + 1,
            inits,
            name,
            fields,
            k,
            span,
            phase,
        ),
        keeps_visits(st, typed_fields(p, st, budget, inits, name, fields, k, span, phase).0),
    decreases 2 * budget + 1, inits, fields.len() - k + 1,
{
    if 0 <= k < fields.len() {
        let field = fields[k];
        match first_initializer(inits, field.name@) {
            Some(j) => {
                lemma_first_initializer(inits, field.name@);
                lemma_typed_budget(p, st, budget, inits[j].value, field.ty, phase);
                let (s1, r) = typed(p, st, budget, inits[j].value, field.ty, phase);
                lemma_ready_after(p, st, s1, budget);
                lemma_fields_budget(p, s1, budget, inits, name, fields, k + 1, span, phase);
                let (s2, rest) = typed_fields(p, s1, budget, inits, name, fields, k + 1, span, phase);
                lemma_keeps_visits_chain(st, s1, s2);
            },
            None => {},
        }
    }
}

pub proof fn lemma_elements_budget(
    p: Program,
    st: EvalState,
    budget: nat,
    elements: Seq<Expr>,
    k: int,
    element: ValueType,
    length: usize,
    phase: Phase,
)
    requires
        evaluation_ready(p, st, budget),
    ensures
        typed_elements(p, st, budget, elements, k, element, length, phase) == typed_elements(
            p,
            st,
            budget + 1,
            elements,
            k,
            element,
            length,
            phase,
        ),
        keeps_visits(st, typed_elements(p, st, budget, elements, k, element, length, phase).0),
    decreases 2 * budget + 1, elements, elements.len() - k + 1,
{
    if 0 <= k < elements.len() {
        lemma_typed_budget(p, st, budget, elements[k], element, phase);
        let (s1, r) = typed(p, st, budget, elements[k], element, phase);
        lemma_ready_after(p, st, s1, budget);
        lemma_elements_budget(p, s1, budget, elements, k + 1, element, length, phase);
        let (s2, rest) = typed_elements(p, s1, budget, elements, k + 1, element, length, phase);
        lemma_keeps_visits_chain(st, s1, s2);
    }
}

pub proof fn lemma_leaf_budget(p: Program, st: EvalState, budget: nat, e: Expr, phase: Phase)
    requires
        evaluation_ready(p, st, budget),
    ensures
        leaf(p, st, budget, e, phase) == leaf(p, st, budget + 1, e, phase),
        keeps_visits(st, leaf(p, st, budget, e, phase).0),
    decreases 2 * budget + 1, e, 1int,
{
    match phase {
        Phase::Constants => match e.kind {
            ExprKind::Variable(name) => lemma_named_budget(p, st, budget, name),
            ExprKind::Call { .. } => {},
            _ => lemma_plain_budget(p, st, budget, e, e.span, phase),
        },
        Phase::Globals => lemma_plain_budget(p, st, budget, e, e.span, phase),
    }
}

pub proof fn lemma_plain_budget(p: Program, st: EvalState, budget: nat, e: Expr, at: Span, phase: Phase)
    requires
        evaluation_ready(p, st, budget),
    ensures
        plain(p, st, budget, e, at, phase) == plain(p, st, budget + 1, e, at, phase),
        keeps_visits(st, plain(p, st, budget, e, at, phase).0),
    decreases 2 * budget + 1, e, 0int,
{
    match e.kind {
        ExprKind::Variable(name) => if phase == Phase::Constants {
            lemma_named_budget(p, st, budget, name);
        },
        ExprKind::Index { base, index } => {
            lemma_plain_budget(p, st, budget, *base, at, phase);
            let (s1, b) = plain(p, st, budget, *base, at, phase);
            lemma_ready_after(p, st, s1, budget);
            lemma_plain_budget(p, s1, budget, *index, at, phase);
            let (s2, i) = plain(p, s1, budget, *index, at, phase);
            lemma_keeps_visits_chain(st, s1, s2);
        },
        ExprKind::Field { base, .. } => lemma_plain_budget(p, st, budget, *base, at, phase),
        ExprKind::Conversion { args, .. } => if args@.len() == 1 {
            lemma_plain_budget(p, st, budget, args@[0], at, phase);
        },
        ExprKind::Unary { operand, .. } => lemma_plain_budget(p, st, budget, *operand, at, phase),
        ExprKind::Binary { left, right, .. } => {
            lemma_plain_budget(p, st, budget, *left, at, phase);
            let (s1, l) = plain(p, st, budget, *left, at, phase);
            lemma_ready_after(p, st, s1, budget);
            lemma_plain_budget(p, s1, budget, *right, at, phase);
            let (s2, r) = plain(p, s1, budget, *right, at, phase);
            lemma_keeps_visits_chain(st, s1, s2);
        },
        _ => {},
    }
}

// ---------------------------------------------------------------------------------------------
// Evaluating a program

/// Evaluating the constants, in order: each not yet failed and not named by an invalid
/// constant is evaluated, and an error is reported where its evaluation fails.
pub open spec fn constants_pass(p: Program, cs: Seq<Constant>) -> (EvalState, Seq<(Seq<char>, Span)>)
    decreases cs.len(),
{
    if cs.len() == 0 {
        (initial_state(), seq![])
    } else {
        let (st, f) = constants_pass(p, cs.drop_last());
        let c = cs.last();
        if invalid_constant_name(p, c.name@) || lookup_value(st.visits, c.name@) == Some(Visit::Failed) {
            (st, f)
        } else {
            let (after, r) = named(p, st, p.constants@.len() as nat, c.name);
            match r {
                Outcome::Error(m, s) => (after, f.push((m, s))),
                _ => (after, f),
            }
        }
    }
}

/// Evaluating the initializers of the globals that can be evaluated, with what the constants
/// gave: an error is reported at the initializer.
pub open spec fn globals_pass(p: Program, st: EvalState, gs: Seq<Global>) -> Seq<(Seq<char>, Span)>
    decreases gs.len(),
{
    if gs.len() == 0 {
        seq![]
    } else {
        let g = gs.last();
        globals_pass(p, st, gs.drop_last()) + if invalid_global(p, g) {
            seq![]
        } else {
            match typed(p, st, 0, g.init, g.ty, Phase::Globals).1 {
                Outcome::Error(m, _) => seq![(m, g.init.span)],
                _ => seq![],
            }
        }
    }
}

/// What evaluating a program's constants, then its globals, reports.
pub open spec fn evaluation_findings(p: Program) -> Seq<(Seq<char>, Span)> {
    let (st, f) = constants_pass(p, p.constants@);
    f + globals_pass(p, st, p.globals@)
}

// ---------------------------------------------------------------------------------------------
// The evaluator

fn failure_text(message: String, span: Span) -> (e: Evaluation)
    ensures
        outcome(e) == Outcome::Error(message@, span),
{
    Evaluation::Failure(Diagnostic::new(message, span))
}

/// The position of the latest constant named `name`.
fn find_definition(cs: &Vec<Constant>, name: &str) -> (found: Option<usize>)
    ensures
        match found {
            Some(i) => i < cs@.len() && definition(cs@, name@) == Some(cs@[i as int]),
            None => definition(cs@, name@) is None,
        },
{
    let mut k: usize = cs.len();
    assert(cs@.subrange(0, k as int) == cs@);
    while k > 0
        invariant
            k <= cs@.len(),
            definition(cs@, name@) == definition(cs@.subrange(0, k as int), name@),
        decreases k,
    {
        let ghost prefix = cs@.subrange(0, k as int);
        assert(prefix.drop_last() == cs@.subrange(0, k - 1));
        assert(prefix.last() == cs@[k - 1]);
        if str_equal(cs[k - 1].name.as_str(), name) {
            return Some(k - 1);
        }
        k -= 1;
    }
    None
}

/// The position of the first initializer of field `name`.
fn find_initializer(inits: &Vec<FieldInitializer>, name: &str) -> (found: Option<usize>)
    ensures
        match found {
            Some(j) => first_initializer(inits@, name@) == Some(j as int),
            None => first_initializer(inits@, name@) is None,
        },
{
    proof {
        lemma_first_initializer(inits@, name@);
    }
    let mut k: usize = 0;
    while k < inits.len()
        invariant
            k <= inits@.len(),
            forall|i: int| 0 <= i < k ==> (#[trigger] inits@[i]).name@ != name@,
            match first_initializer(inits@, name@) {
                Some(j) => 0 <= j < inits@.len() && inits@[j].name@ == name@
                    && forall|i: int| 0 <= i < j ==> (#[trigger] inits@[i]).name@ != name@,
                None => forall|i: int| 0 <= i < inits@.len() ==> (#[trigger] inits@[i]).name@ != name@,
            },
        decreases inits.len() - k,
    {
        if str_equal(inits[k].name.as_str(), name) {
            proof {
                match first_initializer(inits@, name@) {
                    Some(j) => {
                        if j < k {
                            assert(inits@[j].name@ != name@);
                        }
                        if j > k {
                            assert(inits@[k as int].name@ != name@);
                        }
                    },
                    None => {
                        assert(inits@[k as int].name@ != name@);
                    },
                }
            }
            return Some(k);
        }
        k += 1;
    }
    proof {
        match first_initializer(inits@, name@) {
            Some(j) => {
                assert(inits@[j].name@ != name@);
            },
            None => {},
        }
    }
    None
}

/// The position of the first entry of `stack` that is `name`, or 0 where there is none.
fn first_position(stack: &Vec<String>, name: &str) -> (i: usize)
    ensures
        i == first_index(stack@.map_values(|s: String| s@), name@, 0),
{
    let ghost names = stack@.map_values(|s: String| s@);
    let mut k: usize = 0;
    while k < stack.len()
        invariant
            k <= stack@.len(),
            names == stack@.map_values(|s: String| s@),
            first_index(names, name@, 0) == first_index(names, name@, k as int),
        decreases stack.len() - k,
    {
        if str_equal(stack[k].as_str(), name) {
            return k;
        }
        k += 1;
    }
    0
}

proof fn lemma_first_index(stack: Seq<Seq<char>>, name: Seq<char>, i: int)
    requires
        0 <= i,
    ensures
        0 <= first_index(stack, name, i) <= stack.len(),
    decreases stack.len() - i,
{
    if i < stack.len() && stack[i] != name {
        lemma_first_index(stack, name, i + 1);
    }
}

/// The message for `name` met again while under evaluation.
fn cycle_text(stack: &Vec<String>, name: &str) -> (text: String)
    ensures
        text@ == cycle_message(stack@.map_values(|s: String| s@), name@),
{
    let ghost names = stack@.map_values(|s: String| s@);
    let start = first_position(stack, name);
    proof {
        lemma_first_index(names, name@, 0);
    }
    let mut text = owned("cyclic constant definition: ");
    let mut k: usize = start;
    assert(names.subrange(start as int, k as int) =~= Seq::<Seq<char>>::empty());
    while k < stack.len()
        invariant
            start <= k <= stack@.len(),
            names == stack@.map_values(|s: String| s@),
            start as int == first_index(names, name@, 0),
            text@ == "cyclic constant definition: "@ + arrows(names.subrange(start as int, k as int)),
        decreases stack.len() - k,
    {
        let ghost before = names.subrange(start as int, k as int);
        push_str(&mut text, stack[k].as_str());
        push_str(&mut text, " -> ");
        proof {
            let after = names.subrange(start as int, k + 1);
            assert(after.drop_last() =~= before);
            assert(after.last() == names[k as int]);
        }
        k += 1;
    }
    push_str(&mut text, name);
    text
}

fn out_of_bounds_failure(index: i32, length: usize, span: Span) -> (e: Evaluation)
    ensures
        outcome(e) == out_of_bounds(index, length, span),
{
    let mut text = owned("constant index ");
    push_signed_decimal(&mut text, index as i64);
    push_str(&mut text, " is out of bounds for length ");
    push_decimal(&mut text, length as u64);
    failure_text(text, span)
}

/// Indexes an evaluated value with an evaluated index.
fn index_value(base: ConstValue, index: ConstValue, span: Span) -> (e: Evaluation)
    ensures
        outcome(e) == fold_index(base, index, span),
{
    match index {
        ConstValue::I32(i) => match base {
            ConstValue::Array { length, elements, .. } => if i < 0 {
                out_of_bounds_failure(i, length, span)
            } else {
                match value_at(&*elements, i as usize) {
                    Some(v) => Evaluation::Value(v),
                    None => out_of_bounds_failure(i, length, span),
                }
            },
            _ => failure("only arrays can be indexed", span),
        },
        _ => failure("array index must be i32", span),
    }
}

/// Reads field `name` of an evaluated value.
fn field_of(base: ConstValue, name: &str, span: Span) -> (e: Evaluation)
    ensures
        outcome(e) == fold_field(base, name@, span),
{
    match base {
        ConstValue::Struct { name: struct_name, fields } => match field_value(&*fields, name) {
            Some(v) => Evaluation::Value(v),
            None => {
                let mut text = join3("type `", struct_name.as_str(), "` has no field named `");
                push_str(&mut text, name);
                push_str(&mut text, "`");
                failure_text(text, span)
            },
        },
        _ => failure("only struct values have fields", span),
    }
}

/// Applies a unary operator to an evaluated operand.
fn unary_value(op: UnaryOp, v: ConstValue, span: Span) -> (e: Evaluation)
    ensures
        outcome(e) == fold_unary(op, v, span),
{
    match (op, v) {
        (UnaryOp::Negate, ConstValue::I32(x)) => if x == i32::MIN {
            failure("constant-expression overflow", span)
        } else {
            Evaluation::Value(ConstValue::I32(-x))
        },
        (UnaryOp::Negate, ConstValue::F32(b)) => Evaluation::Value(ConstValue::F32(negate_bits(b))),
        (UnaryOp::Not, ConstValue::Bool(b)) => Evaluation::Value(ConstValue::Bool(!b)),
        (UnaryOp::Negate, _) => failure("unary `-` requires a numeric constant", span),
        (UnaryOp::Not, _) => failure("unary `!` requires `bool`", span),
    }
}

fn logical_failure(and: bool, span: Span) -> (e: Evaluation)
    ensures
        outcome(e) == logical_error(and, span),
{
    if and {
        failure("`&&` requires `bool` constants", span)
    } else {
        failure("`||` requires `bool` constants", span)
    }
}

fn logical_value(and: bool, r: Evaluation, span: Span) -> (e: Evaluation)
    ensures
        outcome(e) == logical_right(and, outcome(r), span),
{
    match r {
        Evaluation::Value(ConstValue::Bool(b)) => Evaluation::Value(ConstValue::Bool(b)),
        Evaluation::Value(_) => logical_failure(and, span),
        other => other,
    }
}

/// Whether an expression is the literal 2147483648.
fn is_min_literal(e: &Expr) -> (min: bool)
    ensures
        min == is_min_magnitude(*e),
{
    match &e.kind {
        ExprKind::I32(v) => *v == 2147483648,
        _ => false,
    }
}

/// A constant's outcome checked against its declared type.
fn check_declared(c: &Constant, r: Evaluation) -> (d: Evaluation)
    ensures
        outcome(d) == declared(*c, outcome(r)),
{
    match r {
        Evaluation::Value(v) => {
            let ty = value_type(&v);
            if same_type(&ty, &c.ty) {
                Evaluation::Value(v)
            } else {
                let mut text = join3("constant `", c.name.as_str(), "` has declared type `");
                let declared_name = c.ty.name();
                push_str(&mut text, declared_name.as_str());
                push_str(&mut text, "`, but its initializer evaluates to `");
                let actual_name = ty.name();
                push_str(&mut text, actual_name.as_str());
                push_str(&mut text, "`");
                failure_text(text, c.init.span)
            }
        },
        other => other,
    }
}

/// The evaluator's state, which `EvalState` describes.
struct Evaluator {
    values: Vec<(String, ConstValue)>,
    visits: Vec<(String, Visit)>,
    stack: Vec<String>,
}

impl View for Evaluator {
    type V = EvalState;

    closed spec fn view(&self) -> EvalState {
        EvalState {
            values: named_values(self.values@),
            visits: named_values(self.visits@),
            stack: self.stack@.map_values(|s: String| s@),
        }
    }
}

impl Evaluator {
    fn new() -> (ev: Evaluator)
        ensures
            ev@ == initial_state(),
    {
        let predefined = predefined_values();
        let ghost target = initial_state().values;
        let mut values: Vec<(String, ConstValue)> = Vec::new();
        let mut k: usize = 0;
        while k < predefined.len()
            invariant
                k <= predefined@.len(),
                named_values(predefined@) == predefined_values_spec(),
                target == initial_state().values,
                named_values(values@) == target.subrange(0, k as int),
            decreases predefined.len() - k,
        {
            let ghost before = values@;
            values.push((predefined[k].0.clone(), ConstValue::I32(predefined[k].1)));
            proof {
                assert(named_values(predefined@)[k as int] == (predefined@[k as int].0@, predefined@[k as int].1));
                assert(named_values(values@) =~= named_values(before).push((predefined@[k as int].0@, ConstValue::I32(predefined@[k as int].1))));
                assert(target.subrange(0, k + 1) =~= target.subrange(0, k as int).push(target[k as int]));
            }
            k += 1;
        }
        assert(target.subrange(0, k as int) =~= target);
        let ev = Evaluator { values, visits: Vec::new(), stack: Vec::new() };
        assert(ev@.visits =~= Seq::<(Seq<char>, Visit)>::empty());
        assert(ev@.stack =~= Seq::<Seq<char>>::empty());
        ev
    }

    /// The value known for `name`.
    fn value_of(&self, name: &str) -> (found: Option<ConstValue>)
        ensures
            found == lookup_value(self@.values, name@),
    {
        proof {
            lemma_lookup_named(self.values@, name@);
        }
        match find_latest(&self.values, name) {
            Some(i) => Some(copy_value(&self.values[i].1)),
            None => None,
        }
    }

    /// How far the evaluation of `name` got.
    fn visit_of(&self, name: &str) -> (found: Option<Visit>)
        ensures
            found == lookup_value(self@.visits, name@),
    {
        proof {
            lemma_lookup_named(self.visits@, name@);
        }
        match find_latest(&self.visits, name) {
            Some(i) => Some(self.visits[i].1),
            None => None,
        }
    }

    /// Evaluates the constant `name` on demand.
    fn named(&mut self, p: &Program, invalid: &Vec<String>, budget: usize, name: &String) -> (r: Evaluation)
        requires
            forall|n: Seq<char>| #[trigger] has_name(invalid@, n) <==> invalid_constant_name(*p, n),
        ensures
            (final(self)@, outcome(r)) == named(*p, old(self)@, budget as nat, *name),
        decreases 2 * budget, *p, 0int,
    {
        if let Some(v) = self.value_of(name.as_str()) {
            return Evaluation::Value(v);
        }
        let i = match find_definition(&p.constants, name.as_str()) {
            None => return failure_text(join3("unknown constant `", name.as_str(), "`"), Span::new(0, 0)),
            Some(i) => i,
        };
        let c = &p.constants[i];
        if listed_name(invalid, name.as_str()) {
            return failure_text(join3("constant `", name.as_str(), "` has an invalid initializer"), c.span);
        }
        match self.visit_of(name.as_str()) {
            Some(Visit::Visiting) => {
                let text = cycle_text(&self.stack, name.as_str());
                return failure_text(text, c.span);
            },
            Some(Visit::Failed) => {
                return failure_text(join3("constant `", name.as_str(), "` depends on an invalid constant"), c.span);
            },
            Some(Visit::Complete) => return Evaluation::Unknown,
            Some(Visit::Undetermined) => return Evaluation::Unknown,
            None => {},
        }
        if budget == 0 {
            return Evaluation::Unknown;
        }
        let ghost start = self@;
        self.visits.push((name.clone(), Visit::Visiting));
        self.stack.push(name.clone());
        let ghost entered = EvalState {
            values: start.values,
            visits: start.visits.push((name@, Visit::Visiting)),
            stack: start.stack.push(name@),
        };
        assert(self@.visits =~= entered.visits);
        assert(self@.stack =~= entered.stack);
        assert(self@ == entered);
        let r = self.typed(p, invalid, budget - 1, &c.init, &c.ty, Phase::Constants);
        let ghost after = self@;
        let checked = check_declared(c, r);
        self.stack.pop();
        assert(self@.stack =~= (if after.stack.len() == 0 {
            after.stack
        } else {
            after.stack.drop_last()
        }));
        match checked {
            Evaluation::Value(v) => {
                let kept = copy_value(&v);
                self.visits.push((name.clone(), Visit::Complete));
                self.values.push((name.clone(), kept));
                assert(self@.values =~= after.values.push((name@, v)));
                assert(self@.visits =~= after.visits.push((name@, Visit::Complete)));
                Evaluation::Value(v)
            },
            Evaluation::Failure(d) => {
                self.visits.push((name.clone(), Visit::Failed));
                assert(self@.visits =~= after.visits.push((name@, Visit::Failed)));
                Evaluation::Failure(d)
            },
            Evaluation::Unknown => {
                self.visits.push((name.clone(), Visit::Undetermined));
                assert(self@.visits =~= after.visits.push((name@, Visit::Undetermined)));
                Evaluation::Unknown
            },
        }
    }

    /// Evaluates `e` as a value of type `expected`.
    fn typed(
        &mut self,
        p: &Program,
        invalid: &Vec<String>,
        budget: usize,
        e: &Expr,
        expected: &ValueType,
        phase: Phase,
    ) -> (r: Evaluation)
        requires
            forall|n: Seq<char>| #[trigger] has_name(invalid@, n) <==> invalid_constant_name(*p, n),
        ensures
            (final(self)@, outcome(r)) == typed(*p, old(self)@, budget as nat, *e, *expected, phase),
        decreases 2 * budget + 1, *e, 2int,
    {
        match &e.kind {
            ExprKind::StructLiteral { name, fields } => match expected {
                ValueType::Struct(expected_name) => {
                    if !str_equal(name.as_str(), expected_name.as_str()) {
                        let mut text = join3("expected struct `", expected_name.as_str(), "`, found struct literal `");
                        push_str(&mut text, name.as_str());
                        push_str(&mut text, "`");
                        return failure_text(text, e.span);
                    }
                    match find_struct(&p.structs, name.as_str()) {
                        None => failure_text(join3("unknown struct type `", name.as_str(), "`"), e.span),
                        Some(decl) => self.typed_fields(p, invalid, budget, fields, name, &decl.fields, 0, e.span, phase),
                    }
                },
                _ => failure("struct literal requires a matching struct type annotation", e.span),
            },
            ExprKind::ArrayLiteral(elements) => match expected.resolved_array() {
                Some((element, n)) => if elements.len() != n {
                    let mut text = owned("expected array length ");
                    push_decimal(&mut text, n as u64);
                    push_str(&mut text, ", found ");
                    push_decimal(&mut text, elements.len() as u64);
                    push_str(&mut text, " elements");
                    failure_text(text, e.span)
                } else {
                    self.typed_elements(p, invalid, budget, elements, 0, element, n, phase)
                },
                None => failure("array literal requires an array type annotation", e.span),
            },
            _ => self.leaf(p, invalid, budget, e, phase),
        }
    }

    /// Evaluates the fields of a literal of struct `name` from declared field `k` on.
    fn typed_fields(
        &mut self,
        p: &Program,
        invalid: &Vec<String>,
        budget: usize,
        inits: &Vec<FieldInitializer>,
        name: &String,
        fields: &Vec<StructField>,
        k: usize,
        span: Span,
        phase: Phase,
    ) -> (r: Evaluation)
        requires
            forall|n: Seq<char>| #[trigger] has_name(invalid@, n) <==> invalid_constant_name(*p, n),
        ensures
            (final(self)@, outcome(r)) == typed_fields(
                *p,
                old(self)@,
                budget as nat,
                inits@,
                *name,
                fields@,
                k as int,
                span,
                phase,
            ),
        decreases 2 * budget + 1, inits@, fields@.len() - k + 1,
    {
        if k >= fields.len() {
            return Evaluation::Value(ConstValue::Struct { name: name.clone(), fields: Box::new(FieldValues::Nil) });
        }
        let field = &fields[k];
        match find_initializer(inits, field.name.as_str()) {
            None => {
                let mut text = join3("missing initializer for field `", field.name.as_str(), "` of `");
                push_str(&mut text, name.as_str());
                push_str(&mut text, "`");
                failure_text(text, span)
            },
            Some(j) => {
                proof {
                    lemma_first_initializer(inits@, field.name@);
                }
                let r = self.typed(p, invalid, budget, &inits[j].value, &field.ty, phase);
                match r {
                    Evaluation::Value(v) => {
                        let rest = self.typed_fields(p, invalid, budget, inits, name, fields, k + 1, span, phase);
                        match rest {
                            Evaluation::Value(ConstValue::Struct { fields: tail, .. }) => Evaluation::Value(
                                ConstValue::Struct {
                                    name: name.clone(),
                                    fields: Box::new(FieldValues::Cons(field.name.clone(), Box::new(v), tail)),
                                },
                            ),
                            other => other,
                        }
                    },
                    other => other,
                }
            },
        }
    }

    /// Evaluates the elements of an array literal from position `k` on.
    fn typed_elements(
        &mut self,
        p: &Program,
        invalid: &Vec<String>,
        budget: usize,
        elements: &Vec<Expr>,
        k: usize,
        element: &ValueType,
        length: usize,
        phase: Phase,
    ) -> (r: Evaluation)
        requires
            forall|n: Seq<char>| #[trigger] has_name(invalid@, n) <==> invalid_constant_name(*p, n),
        ensures
            (final(self)@, outcome(r)) == typed_elements(
                *p,
                old(self)@,
                budget as nat,
                elements@,
                k as int,
                *element,
                length,
                phase,
            ),
        decreases 2 * budget + 1, elements@, elements@.len() - k + 1,
    {
        let ghost whole = typed_elements(*p, self@, budget as nat, elements@, k as int, *element, length, phase);
        let mut found: Vec<ConstValue> = Vec::new();
        let mut i: usize = k;
        if i > elements.len() {
            i = elements.len();
        }
        proof {
            if k > elements@.len() {
                assert(typed_elements(*p, self@, budget as nat, elements@, i as int, *element, length, phase).1
                    == whole.1);
            }
        }
        while i < elements.len()
            invariant
                i <= elements@.len(),
                forall|n: Seq<char>| #[trigger] has_name(invalid@, n) <==> invalid_constant_name(*p, n),
                whole == typed_elements(*p, old(self)@, budget as nat, elements@, k as int, *element, length, phase),
                whole == (
                    typed_elements(*p, self@, budget as nat, elements@, i as int, *element, length, phase).0,
                    prepended(
                        found@,
                        *element,
                        length,
                        typed_elements(*p, self@, budget as nat, elements@, i as int, *element, length, phase).1,
                    ),
                ),
            decreases elements.len() - i,
        {
            assert(decreases_to!(elements@ => elements@[i as int]));
            let ghost before = self@;
            let r = self.typed(p, invalid, budget, &elements[i], element, phase);
            match r {
                Evaluation::Value(v) => {
                    proof {
                        let rest = typed_elements(*p, self@, budget as nat, elements@, i + 1, *element, length, phase);
                        match rest.1 {
                            Outcome::Value(ConstValue::Array { elements: tail, .. }) => {
                                lemma_cons_one(v, *tail);
                            },
                            _ => {},
                        }
                        assert(typed_elements(*p, before, budget as nat, elements@, i as int, *element, length, phase)
                            == (rest.0, prepended(seq![v], *element, length, rest.1)));
                        lemma_prepended_push(found@, v, *element, length, rest.1);
                    }
                    found.push(v);
                    i += 1;
                },
                Evaluation::Failure(d) => {
                    proof {
                        assert(typed_elements(*p, before, budget as nat, elements@, i as int, *element, length, phase)
                            == (self@, outcome(Evaluation::Failure(d))));
                        assert(prepended(found@, *element, length, outcome(Evaluation::Failure(d))) == outcome(
                            Evaluation::Failure(d),
                        ));
                        assert(whole == (self@, outcome(Evaluation::Failure(d))));
                    }
                    return Evaluation::Failure(d);
                },
                Evaluation::Unknown => {
                    proof {
                        assert(typed_elements(*p, before, budget as nat, elements@, i as int, *element, length, phase)
                            == (self@, Outcome::Unknown));
                        assert(prepended(found@, *element, length, Outcome::Unknown) == Outcome::Unknown);
                        assert(whole == (self@, Outcome::Unknown));
                    }
                    return Evaluation::Unknown;
                },
            }
        }
        let ghost all = found@;
        let mut tail = Values::Nil;
        proof {
            assert(all.subrange(0, all.len() as int) =~= all);
        }
        while found.len() > 0
            invariant
                found@.len() <= all.len(),
                found@ == all.subrange(0, found@.len() as int),
                cons_all(all, Values::Nil) == cons_all(found@, tail),
            decreases found.len(),
        {
            let ghost before = found@;
            let v = found.pop().unwrap();
            proof {
                assert(before == found@.push(v));
                lemma_cons_all_push(found@, v, tail);
                assert(found@ =~= all.subrange(0, found@.len() as int));
            }
            tail = Values::Cons(Box::new(v), Box::new(tail));
        }
        proof {
            assert(found@.len() == 0);
            assert(cons_all(found@, tail) == tail);
        }
        Evaluation::Value(ConstValue::Array { element_type: Box::new(element.clone()), length, elements: Box::new(tail) })
    }

    /// Evaluates an expression that is not a struct or array literal.
    fn leaf(&mut self, p: &Program, invalid: &Vec<String>, budget: usize, e: &Expr, phase: Phase) -> (r: Evaluation)
        requires
            forall|n: Seq<char>| #[trigger] has_name(invalid@, n) <==> invalid_constant_name(*p, n),
        ensures
            (final(self)@, outcome(r)) == leaf(*p, old(self)@, budget as nat, *e, phase),
        decreases 2 * budget + 1, *e, 1int,
    {
        match phase {
            Phase::Constants => match &e.kind {
                ExprKind::Variable(name) => {
                    if let Some(v) = self.value_of(name.as_str()) {
                        return Evaluation::Value(v);
                    }
                    if find_definition(&p.constants, name.as_str()).is_some() {
                        return self.named(p, invalid, budget, name);
                    }
                    if find_global(&p.globals, name.as_str()).is_some() {
                        return failure_text(
                            join3("constant expressions cannot reference mutable global `", name.as_str(), "`"),
                            e.span,
                        );
                    }
                    failure_text(join3("`", name.as_str(), "` is not a compile-time constant"), e.span)
                },
                ExprKind::Call { name, .. } => failure_text(
                    join3("constant expressions cannot call function `", name.as_str(), "`"),
                    e.span,
                ),
                _ => self.plain(p, invalid, budget, e, e.span, phase),
            },
            Phase::Globals => self.plain(p, invalid, budget, e, e.span, phase),
        }
    }

    /// Evaluates an expression by its form.
    fn plain(&mut self, p: &Program, invalid: &Vec<String>, budget: usize, e: &Expr, at: Span, phase: Phase) -> (r: Evaluation)
        requires
            forall|n: Seq<char>| #[trigger] has_name(invalid@, n) <==> invalid_constant_name(*p, n),
        ensures
            (final(self)@, outcome(r)) == plain(*p, old(self)@, budget as nat, *e, at, phase),
        decreases 2 * budget + 1, *e, 0int,
    {
        match &e.kind {
            ExprKind::I32(v) => if i32::MIN as i64 <= *v && *v <= i32::MAX as i64 {
                Evaluation::Value(ConstValue::I32(*v as i32))
            } else {
                failure("integer literal does not fit in `i32`", e.span)
            },
            ExprKind::F32(text) => if float_literal_finite(text.as_str()) {
                match find_latest(&p.float_bits, text.as_str()) {
                    Some(i) => Evaluation::Value(ConstValue::F32(p.float_bits[i].1)),
                    None => Evaluation::Unknown,
                }
            } else {
                failure("floating-point constant must be finite", e.span)
            },
            ExprKind::Bool(b) => Evaluation::Value(ConstValue::Bool(*b)),
            ExprKind::ArrayLiteral(_) => failure("array literal requires an explicit array type annotation", e.span),
            ExprKind::StructLiteral { name, .. } => failure_text(
                join3("struct literal `", name.as_str(), "` requires its declared struct type"),
                e.span,
            ),
            ExprKind::Variable(name) => match phase {
                Phase::Constants => if find_global(&p.globals, name.as_str()).is_some() {
                    failure_text(join3("constant expressions cannot reference mutable global `", name.as_str(), "`"), at)
                } else {
                    self.named(p, invalid, budget, name)
                },
                Phase::Globals => self.global_lookup(p, name.as_str(), at),
            },
            ExprKind::Index { base, index } => {
                let b = self.plain(p, invalid, budget, base, at, phase);
                match b {
                    Evaluation::Value(bv) => {
                        let i = self.plain(p, invalid, budget, index, at, phase);
                        match i {
                            Evaluation::Value(iv) => index_value(bv, iv, e.span),
                            other => other,
                        }
                    },
                    other => other,
                }
            },
            ExprKind::Field { base, name, .. } => {
                let b = self.plain(p, invalid, budget, base, at, phase);
                match b {
                    Evaluation::Value(bv) => field_of(bv, name.as_str(), e.span),
                    other => other,
                }
            },
            ExprKind::Call { name, .. } => failure_text(
                join3("constant expressions cannot call function `", name.as_str(), "`"),
                e.span,
            ),
            ExprKind::Conversion { target, args } => if args.len() != 1 {
                let mut text = owned("conversion to `");
                let target_name = target.name();
                push_str(&mut text, target_name.as_str());
                push_str(&mut text, "` expects 1 argument, but received ");
                push_decimal(&mut text, args.len() as u64);
                failure_text(text, e.span)
            } else {
                let r = self.plain(p, invalid, budget, &args[0], at, phase);
                match r {
                    Evaluation::Value(v) => conversion_value(target, v, args[0].span),
                    other => other,
                }
            },
            ExprKind::Unary { op, operand } => if *op == UnaryOp::Negate && is_min_literal(operand) {
                Evaluation::Value(ConstValue::I32(i32::MIN))
            } else {
                let r = self.plain(p, invalid, budget, operand, at, phase);
                match r {
                    Evaluation::Value(v) => unary_value(*op, v, e.span),
                    other => other,
                }
            },
            ExprKind::Binary { left, op, right } => {
                let l = self.plain(p, invalid, budget, left, at, phase);
                match l {
                    Evaluation::Value(lv) => if *op == BinaryOp::LogicalAnd || *op == BinaryOp::LogicalOr {
                        let and = *op == BinaryOp::LogicalAnd;
                        match lv {
                            ConstValue::Bool(b) => if b != and {
                                Evaluation::Value(ConstValue::Bool(b))
                            } else {
                                let r = self.plain(p, invalid, budget, right, at, phase);
                                logical_value(and, r, e.span)
                            },
                            _ => logical_failure(and, e.span),
                        }
                    } else {
                        let r = self.plain(p, invalid, budget, right, at, phase);
                        match r {
                            Evaluation::Value(rv) => binary_value(lv, *op, rv, e.span),
                            other => other,
                        }
                    },
                    other => other,
                }
            },
        }
    }

    /// What a global initializer finds for `name`.
    fn global_lookup(&self, p: &Program, name: &str, at: Span) -> (e: Evaluation)
        ensures
            outcome(e) == global_lookup(self@, *p, name@, at),
    {
        match self.value_of(name) {
            Some(v) => Evaluation::Value(v),
            None => if self.visit_of(name) == Some(Visit::Undetermined) {
                Evaluation::Unknown
            } else if find_global(&p.globals, name).is_some() {
                failure_text(join3("global initializers cannot reference mutable global `", name, "`"), at)
            } else {
                failure_text(join3("`", name, "` is not a compile-time constant"), at)
            },
        }
    }
}

/// Evaluates the constants in order, skipping those that cannot be evaluated or already
/// failed: the evaluator afterwards and what it reported.
fn evaluate_constants(program: &Program, invalid: &Vec<String>, diagnostics: &mut Vec<Diagnostic>) -> (ev: Evaluator)
    requires
        forall|n: Seq<char>| #[trigger] has_name(invalid@, n) <==> invalid_constant_name(*program, n),
    ensures
        ev@ == constants_pass(*program, program.constants@).0,
        findings(final(diagnostics)@) == findings(old(diagnostics)@) + constants_pass(*program, program.constants@).1,
{
    let ghost before = findings(diagnostics@);
    let mut ev = Evaluator::new();
    let cs = &program.constants;
    let ghost mut found: Seq<(Seq<char>, Span)> = seq![];
    assert(cs@.subrange(0, 0) =~= Seq::<Constant>::empty());
    assert(findings(diagnostics@) =~= before + found);
    let mut k: usize = 0;
    while k < cs.len()
        invariant
            k <= cs@.len(),
            cs@ == program.constants@,
            forall|n: Seq<char>| #[trigger] has_name(invalid@, n) <==> invalid_constant_name(*program, n),
            constants_pass(*program, cs@.subrange(0, k as int)) == (ev@, found),
            findings(diagnostics@) == before + found,
        decreases cs.len() - k,
    {
        let ghost prefix = cs@.subrange(0, k + 1);
        assert(prefix.drop_last() =~= cs@.subrange(0, k as int));
        assert(prefix.last() == cs@[k as int]);
        let c = &cs[k];
        let skip = listed_name(invalid, c.name.as_str()) || matches!(ev.visit_of(c.name.as_str()), Some(Visit::Failed));
        if !skip {
            let r = ev.named(program, invalid, cs.len(), &c.name);
            match r {
                Evaluation::Failure(d) => {
                    let ghost item = (d.message@, d.span);
                    let ghost earlier = diagnostics@;
                    diagnostics.push(d);
                    proof {
                        assert(findings(diagnostics@) =~= findings(earlier).push(item));
                        found = found.push(item);
                    }
                    assert(findings(diagnostics@) =~= before + found);
                },
                _ => {},
            }
        }
        k += 1;
    }
    assert(cs@.subrange(0, k as int) =~= cs@);
    ev
}

/// What a global's initializer evaluates to, where it can be evaluated and gives a value of
/// the global's type.
pub open spec fn global_value(p: Program, st: EvalState, g: Global) -> Option<ConstValue> {
    if invalid_global(p, g) {
        None
    } else {
        match typed(p, st, 0, g.init, g.ty, Phase::Globals).1 {
            Outcome::Value(v) => if same(type_of(v), g.ty) {
                Some(v)
            } else {
                None
            },
            _ => None,
        }
    }
}

/// Evaluates a program's constants, then its globals' initializers, reports what fails, as
/// `evaluation_findings` says, and gives the values found.
pub fn check_evaluation(program: &Program, diagnostics: &mut Vec<Diagnostic>) -> (values: InitialValues)
    ensures
        findings(final(diagnostics)@) == findings(old(diagnostics)@) + evaluation_findings(*program),
        initial_values_of(*program, values),
{
    let ghost before = findings(diagnostics@);
    let mut scratch: Vec<Diagnostic> = Vec::new();
    let analysis = StructTypeAnalysis::new(&program.structs, &mut scratch);
    let invalid = invalid_constant_names(program, &analysis);
    let mut ev = evaluate_constants(program, &invalid, diagnostics);
    let ghost st = ev@;
    let ghost constants_found = constants_pass(*program, program.constants@).1;
    let mut constant_values: Vec<Option<ConstValue>> = Vec::new();
    let mut k: usize = 0;
    while k < program.constants.len()
        invariant
            k <= program.constants@.len(),
            constant_values@.len() == k,
            ev@ == st,
            st == constants_pass(*program, program.constants@).0,
            forall|i: int|
                0 <= i < k ==> #[trigger] constant_values@[i] == lookup_value(st.values, program.constants@[i].name@),
        decreases program.constants.len() - k,
    {
        constant_values.push(ev.value_of(program.constants[k].name.as_str()));
        k += 1;
    }
    let gs = &program.globals;
    let mut global_values: Vec<Option<ConstValue>> = Vec::new();
    assert(gs@.subrange(0, 0) =~= Seq::<Global>::empty());
    let mut k: usize = 0;
    while k < gs.len()
        invariant
            k <= gs@.len(),
            gs@ == program.globals@,
            global_values@.len() == k,
            forall|n: Seq<char>| #[trigger] has_name(invalid@, n) <==> invalid_constant_name(*program, n),
            forall|i: int| 0 <= i < crate::sema::struct_table(program.structs@).len() ==> (analysis.fails(#[trigger] crate::sema::struct_table(program.structs@)[i].name@) <==> crate::sema::length_failure(crate::sema::struct_table(program.structs@), i)),
            forall|name: Seq<char>| analysis.fails(name) ==> crate::sema::declares(program.structs@, name),
            ev@ == st,
            st == constants_pass(*program, program.constants@).0,
            forall|i: int| 0 <= i < k ==> #[trigger] global_values@[i] == global_value(*program, st, program.globals@[i]),
            findings(diagnostics@) == before + constants_found + globals_pass(*program, st, gs@.subrange(0, k as int)),
        decreases gs.len() - k,
    {
        let ghost prefix = gs@.subrange(0, k + 1);
        assert(prefix.drop_last() =~= gs@.subrange(0, k as int));
        assert(prefix.last() == gs@[k as int]);
        let g = &gs[k];
        let mut value: Option<ConstValue> = None;
        if !global_is_invalid(program, g, &analysis) {
            proof {
                lemma_globals_typed(*program, ev@, 0, g.init, g.ty);
            }
            let ghost earlier = diagnostics@;
            let r = ev.typed(program, &invalid, 0, &g.init, &g.ty, Phase::Globals);
            match r {
                Evaluation::Failure(d) => {
                    let ghost item = (d.message@, g.init.span);
                    diagnostics.push(Diagnostic::new(d.message, g.init.span));
                    assert(findings(diagnostics@) =~= findings(earlier).push(item));
                },
                Evaluation::Value(v) => {
                    assert(diagnostics@ == earlier);
                    let ty = value_type(&v);
                    if same_type(&ty, &g.ty) {
                        value = Some(v);
                    }
                },
                Evaluation::Unknown => {
                    assert(diagnostics@ == earlier);
                },
            }
        }
        global_values.push(value);
        assert(findings(diagnostics@) =~= before + constants_found + globals_pass(*program, st, prefix));
        k += 1;
    }
    assert(gs@.subrange(0, k as int) =~= gs@);
    InitialValues { constants: constant_values, globals: global_values }
}

/// The value each constant evaluates to, by its name, where evaluation gives one.
pub fn constant_values(program: &Program) -> (values: Vec<Option<ConstValue>>)
    ensures
        values@.len() == program.constants@.len(),
        forall|i: int|
            0 <= i < values@.len() ==> #[trigger] values@[i] == lookup_value(
                constants_pass(*program, program.constants@).0.values,
                program.constants@[i].name@,
            ),
{
    let mut scratch: Vec<Diagnostic> = Vec::new();
    let analysis = StructTypeAnalysis::new(&program.structs, &mut scratch);
    let invalid = invalid_constant_names(program, &analysis);
    let ev = evaluate_constants(program, &invalid, &mut scratch);
    let mut values: Vec<Option<ConstValue>> = Vec::new();
    let mut k: usize = 0;
    while k < program.constants.len()
        invariant
            k <= program.constants@.len(),
            values@.len() == k,
            ev@ == constants_pass(*program, program.constants@).0,
            forall|i: int|
                0 <= i < k ==> #[trigger] values@[i] == lookup_value(ev@.values, program.constants@[i].name@),
        decreases program.constants.len() - k,
    {
        values.push(ev.value_of(program.constants[k].name.as_str()));
        k += 1;
    }
    values
}

/// The value each global's initializer evaluates to, where it gives one of the global's type.
pub fn global_values(program: &Program) -> (values: Vec<Option<ConstValue>>)
    ensures
        values@.len() == program.globals@.len(),
        forall|i: int|
            0 <= i < values@.len() ==> #[trigger] values@[i] == global_value(
                *program,
                constants_pass(*program, program.constants@).0,
                program.globals@[i],
            ),
{
    let mut scratch: Vec<Diagnostic> = Vec::new();
    let analysis = StructTypeAnalysis::new(&program.structs, &mut scratch);
    let invalid = invalid_constant_names(program, &analysis);
    let mut ev = evaluate_constants(program, &invalid, &mut scratch);
    let ghost st = ev@;
    let mut values: Vec<Option<ConstValue>> = Vec::new();
    let mut k: usize = 0;
    while k < program.globals.len()
        invariant
            k <= program.globals@.len(),
            values@.len() == k,
            forall|n: Seq<char>| #[trigger] has_name(invalid@, n) <==> invalid_constant_name(*program, n),
            forall|i: int| 0 <= i < crate::sema::struct_table(program.structs@).len() ==> (analysis.fails(#[trigger] crate::sema::struct_table(program.structs@)[i].name@) <==> crate::sema::length_failure(crate::sema::struct_table(program.structs@), i)),
            forall|name: Seq<char>| analysis.fails(name) ==> crate::sema::declares(program.structs@, name),
            st == constants_pass(*program, program.constants@).0,
            ev@ == st,
            forall|i: int| 0 <= i < k ==> #[trigger] values@[i] == global_value(*program, st, program.globals@[i]),
        decreases program.globals.len() - k,
    {
        let g = &program.globals[k];
        let mut value: Option<ConstValue> = None;
        if !global_is_invalid(program, g, &analysis) {
            proof {
                lemma_globals_typed(*program, ev@, 0, g.init, g.ty);
            }
            let r = ev.typed(program, &invalid, 0, &g.init, &g.ty, Phase::Globals);
            match r {
                Evaluation::Value(v) => {
                    let ty = value_type(&v);
                    if same_type(&ty, &g.ty) {
                        value = Some(v);
                    }
                },
                _ => {},
            }
        }
        values.push(value);
        k += 1;
    }
    values
}

/// The values a program's constants and globals start with, each by its position.
pub struct InitialValues {
    pub constants: Vec<Option<ConstValue>>,
    pub globals: Vec<Option<ConstValue>>,
}

/// Whether `v` holds, for each constant, the value its evaluation gives, and for each global
/// the value of its type its initializer gives.
pub open spec fn initial_values_of(p: Program, v: InitialValues) -> bool {
    &&& v.constants@.len() == p.constants@.len()
    &&& forall|i: int|
        0 <= i < v.constants@.len() ==> #[trigger] v.constants@[i] == lookup_value(
            constants_pass(p, p.constants@).0.values,
            p.constants@[i].name@,
        )
    &&& v.globals@.len() == p.globals@.len()
    &&& forall|i: int|
        0 <= i < v.globals@.len() ==> #[trigger] v.globals@[i] == global_value(
            p,
            constants_pass(p, p.constants@).0,
            p.globals@[i],
        )
}

/// The values of a program's constants and globals.
pub fn initial_values(program: &Program) -> (values: InitialValues)
    ensures
        initial_values_of(*program, values),
{
    InitialValues { constants: constant_values(program), globals: global_values(program) }
}

/// The names of the constants among `cs` whose evaluation was left undetermined, in order.
pub open spec fn undetermined_constants(st: EvalState, cs: Seq<Constant>) -> Seq<Seq<char>>
    decreases cs.len(),
{
    if cs.len() == 0 {
        seq![]
    } else {
        let rest = undetermined_constants(st, cs.drop_last());
        if lookup_value(st.visits, cs.last().name@) == Some(Visit::Undetermined) {
            rest.push(cs.last().name@)
        } else {
            rest
        }
    }
}

/// The names of the globals among `gs` whose initializer's evaluation was left undetermined,
/// in order.
pub open spec fn undetermined_globals(p: Program, st: EvalState, gs: Seq<Global>) -> Seq<Seq<char>>
    decreases gs.len(),
{
    if gs.len() == 0 {
        seq![]
    } else {
        let rest = undetermined_globals(p, st, gs.drop_last());
        let g = gs.last();
        if !invalid_global(p, g) && typed(p, st, 0, g.init, g.ty, Phase::Globals).1 is Unknown {
            rest.push(g.name@)
        } else {
            rest
        }
    }
}

/// The constants, then the globals, whose evaluation rests on `f32` arithmetic or on a literal
/// missing from the program's table of literal bits, and so was left undetermined: checking
/// reported nothing for them and gave them no value.
pub fn undetermined_initializers(program: &Program) -> (names: Vec<String>)
    ensures
        names@.map_values(|n: String| n@) == undetermined_constants(
            constants_pass(*program, program.constants@).0,
            program.constants@,
        ) + undetermined_globals(*program, constants_pass(*program, program.constants@).0, program.globals@),
{
    let mut scratch: Vec<Diagnostic> = Vec::new();
    let analysis = StructTypeAnalysis::new(&program.structs, &mut scratch);
    let invalid = invalid_constant_names(program, &analysis);
    let mut ev = evaluate_constants(program, &invalid, &mut scratch);
    let ghost st = ev@;
    let cs = &program.constants;
    let mut names: Vec<String> = Vec::new();
    let mut k: usize = 0;
    assert(cs@.subrange(0, 0) =~= Seq::<Constant>::empty());
    while k < cs.len()
        invariant
            k <= cs@.len(),
            cs@ == program.constants@,
            ev@ == st,
            names@.map_values(|n: String| n@) == undetermined_constants(st, cs@.subrange(0, k as int)),
        decreases cs.len() - k,
    {
        let ghost prefix = cs@.subrange(0, k + 1);
        assert(prefix.drop_last() =~= cs@.subrange(0, k as int));
        let ghost before = names@;
        if matches!(ev.visit_of(cs[k].name.as_str()), Some(Visit::Undetermined)) {
            names.push(cs[k].name.clone());
            assert(names@.map_values(|n: String| n@) =~= before.map_values(|n: String| n@).push(cs@[k as int].name@));
        }
        k += 1;
    }
    assert(cs@.subrange(0, k as int) =~= cs@);
    let ghost from_constants = names@.map_values(|n: String| n@);
    let gs = &program.globals;
    let mut k: usize = 0;
    assert(gs@.subrange(0, 0) =~= Seq::<Global>::empty());
    assert(from_constants + undetermined_globals(*program, st, gs@.subrange(0, 0)) =~= from_constants);
    while k < gs.len()
        invariant
            k <= gs@.len(),
            gs@ == program.globals@,
            forall|n: Seq<char>| #[trigger] has_name(invalid@, n) <==> invalid_constant_name(*program, n),
            forall|i: int| 0 <= i < crate::sema::struct_table(program.structs@).len() ==> (analysis.fails(#[trigger] crate::sema::struct_table(program.structs@)[i].name@) <==> crate::sema::length_failure(crate::sema::struct_table(program.structs@), i)),
            forall|name: Seq<char>| analysis.fails(name) ==> crate::sema::declares(program.structs@, name),
            st == constants_pass(*program, program.constants@).0,
            ev@ == st,
            names@.map_values(|n: String| n@) == from_constants + undetermined_globals(*program, st, gs@.subrange(0, k as int)),
        decreases gs.len() - k,
    {
        let ghost prefix = gs@.subrange(0, k + 1);
        assert(prefix.drop_last() =~= gs@.subrange(0, k as int));
        let g = &gs[k];
        let ghost before = names@;
        if !global_is_invalid(program, g, &analysis) {
            proof {
                lemma_globals_typed(*program, ev@, 0, g.init, g.ty);
            }
            let r = ev.typed(program, &invalid, 0, &g.init, &g.ty, Phase::Globals);
            if matches!(r, Evaluation::Unknown) {
                names.push(g.name.clone());
                assert(names@.map_values(|n: String| n@) =~= before.map_values(|n: String| n@).push(g.name@));
            }
        }
        assert(names@.map_values(|n: String| n@) =~= from_constants + undetermined_globals(*program, st, prefix));
        k += 1;
    }
    assert(gs@.subrange(0, k as int) =~= gs@);
    names
}

/// The integer values among recorded values, in order.
pub open spec fn integer_values(values: Seq<(Seq<char>, ConstValue)>) -> Seq<(Seq<char>, i32)>
    decreases values.len(),
{
    if values.len() == 0 {
        seq![]
    } else {
        let rest = integer_values(values.drop_last());
        match values.last().1 {
            ConstValue::I32(v) => rest.push((values.last().0, v)),
            _ => rest,
        }
    }
}

/// The integer values that evaluating a program's constants records: the predefined constants'
/// and those of its constants whose value is an `i32`.
pub fn evaluated_integers(program: &Program) -> (values: Vec<(String, i32)>)
    ensures
        named_values(values@) == integer_values(constants_pass(*program, program.constants@).0.values),
{
    let mut scratch: Vec<Diagnostic> = Vec::new();
    let analysis = StructTypeAnalysis::new(&program.structs, &mut scratch);
    let invalid = invalid_constant_names(program, &analysis);
    let ev = evaluate_constants(program, &invalid, &mut scratch);
    let ghost recorded = named_values(ev.values@);
    let mut values: Vec<(String, i32)> = Vec::new();
    let mut k: usize = 0;
    assert(recorded.subrange(0, 0) =~= Seq::<(Seq<char>, ConstValue)>::empty());
    while k < ev.values.len()
        invariant
            k <= ev.values@.len(),
            recorded == named_values(ev.values@),
            named_values(values@) == integer_values(recorded.subrange(0, k as int)),
        decreases ev.values.len() - k,
    {
        let ghost prefix = recorded.subrange(0, k + 1);
        assert(prefix.drop_last() =~= recorded.subrange(0, k as int));
        assert(prefix.last() == (ev.values@[k as int].0@, ev.values@[k as int].1));
        match &ev.values[k].1 {
            ConstValue::I32(v) => {
                let ghost before = values@;
                values.push((ev.values[k].0.clone(), *v));
                assert(named_values(values@) =~= named_values(before).push((ev.values@[k as int].0@, *v)));
            },
            _ => {},
        }
        k += 1;
    }
    assert(recorded.subrange(0, k as int) =~= recorded);
    values
}


// ---------------------------------------------------------------------------------------------
// What the operators compute on integers

/// On two `i32` constants the comparisons compare the integers, and `+`, `-` and `*` give the
/// integer result when it fits in `i32` and an overflow error when it does not; division by zero
/// is an error, and a division of a non-negative integer by a positive one gives the quotient.
pub proof fn lemma_integer_operators(a: i32, b: i32, span: Span)
    ensures
        fold_binary(ConstValue::I32(a), BinaryOp::Less, ConstValue::I32(b), span) == Outcome::Value(
            ConstValue::Bool(a < b),
        ),
        fold_binary(ConstValue::I32(a), BinaryOp::LessEqual, ConstValue::I32(b), span) == Outcome::Value(
            ConstValue::Bool(a <= b),
        ),
        fold_binary(ConstValue::I32(a), BinaryOp::Greater, ConstValue::I32(b), span) == Outcome::Value(
            ConstValue::Bool(a > b),
        ),
        fold_binary(ConstValue::I32(a), BinaryOp::GreaterEqual, ConstValue::I32(b), span) == Outcome::Value(
            ConstValue::Bool(a >= b),
        ),
        fold_binary(ConstValue::I32(a), BinaryOp::Equal, ConstValue::I32(b), span) == Outcome::Value(
            ConstValue::Bool(a == b),
        ),
        fold_binary(ConstValue::I32(a), BinaryOp::NotEqual, ConstValue::I32(b), span) == Outcome::Value(
            ConstValue::Bool(a != b),
        ),
        i32::MIN <= a + b <= i32::MAX ==> fold_binary(ConstValue::I32(a), BinaryOp::Add, ConstValue::I32(b), span)
            == Outcome::Value(ConstValue::I32((a + b) as i32)),
        !(i32::MIN <= a + b <= i32::MAX) ==> fold_binary(ConstValue::I32(a), BinaryOp::Add, ConstValue::I32(b), span)
            == overflow(span),
        i32::MIN <= a - b <= i32::MAX ==> fold_binary(ConstValue::I32(a), BinaryOp::Subtract, ConstValue::I32(b), span)
            == Outcome::Value(ConstValue::I32((a - b) as i32)),
        !(i32::MIN <= a - b <= i32::MAX) ==> fold_binary(
            ConstValue::I32(a),
            BinaryOp::Subtract,
            ConstValue::I32(b),
            span,
        ) == overflow(span),
        i32::MIN <= a * b <= i32::MAX ==> fold_binary(ConstValue::I32(a), BinaryOp::Multiply, ConstValue::I32(b), span)
            == Outcome::Value(ConstValue::I32((a * b) as i32)),
        !(i32::MIN <= a * b <= i32::MAX) ==> fold_binary(
            ConstValue::I32(a),
            BinaryOp::Multiply,
            ConstValue::I32(b),
            span,
        ) == overflow(span),
        b == 0 ==> fold_binary(ConstValue::I32(a), BinaryOp::Divide, ConstValue::I32(b), span) == Outcome::Error(
            "division by zero in constant expression"@,
            span,
        ),
        a >= 0 && b > 0 ==> fold_binary(ConstValue::I32(a), BinaryOp::Divide, ConstValue::I32(b), span)
            == Outcome::Value(ConstValue::I32((a / b) as i32)),
{
}

/// Whether `op` compares or computes, rather than being `&&` or `||`.
pub open spec fn folds(op: BinaryOp) -> bool {
    op != BinaryOp::LogicalAnd && op != BinaryOp::LogicalOr
}

/// A binary expression whose operands evaluate to the integers `a` and `b` evaluates, in the
/// state the right operand leaves, to what the operator computes on `a` and `b`: `a < b` is
/// `true` exactly when `a` is less than `b`, and so on for every comparison; `+`, `-` and `*`
/// give the integer result when it fits in `i32`.
pub proof fn lemma_binary_expressions_compute_on_their_operands(
    p: Program,
    st: EvalState,
    budget: nat,
    e: Expr,
    at: Span,
    phase: Phase,
    a: i32,
    b: i32,
)
    requires
        e.kind is Binary,
        folds(e.kind->Binary_op),
        plain(p, st, budget, *e.kind->Binary_left, at, phase).1 == Outcome::Value(ConstValue::I32(a)),
        plain(p, plain(p, st, budget, *e.kind->Binary_left, at, phase).0, budget, *e.kind->Binary_right, at, phase).1 == Outcome::Value(
            ConstValue::I32(b),
        ),
    ensures
        ({
            let after = plain(p, plain(p, st, budget, *e.kind->Binary_left, at, phase).0, budget, *e.kind->Binary_right, at, phase).0;
            let r = plain(p, st, budget, e, at, phase);
            &&& r.0 == after
            &&& e.kind->Binary_op == BinaryOp::Less ==> r.1 == Outcome::Value(ConstValue::Bool(a < b))
            &&& e.kind->Binary_op == BinaryOp::LessEqual ==> r.1 == Outcome::Value(ConstValue::Bool(a <= b))
            &&& e.kind->Binary_op == BinaryOp::Greater ==> r.1 == Outcome::Value(ConstValue::Bool(a > b))
            &&& e.kind->Binary_op == BinaryOp::GreaterEqual ==> r.1 == Outcome::Value(ConstValue::Bool(a >= b))
            &&& e.kind->Binary_op == BinaryOp::Equal ==> r.1 == Outcome::Value(ConstValue::Bool(a == b))
            &&& e.kind->Binary_op == BinaryOp::NotEqual ==> r.1 == Outcome::Value(ConstValue::Bool(a != b))
            &&& e.kind->Binary_op == BinaryOp::Add && i32::MIN <= a + b <= i32::MAX ==> r.1 == Outcome::Value(
                ConstValue::I32((a + b) as i32),
            )
            &&& e.kind->Binary_op == BinaryOp::Subtract && i32::MIN <= a - b <= i32::MAX ==> r.1 == Outcome::Value(
                ConstValue::I32((a - b) as i32),
            )
            &&& e.kind->Binary_op == BinaryOp::Multiply && i32::MIN <= a * b <= i32::MAX ==> r.1 == Outcome::Value(
                ConstValue::I32((a * b) as i32),
            )
        }),
{
    lemma_integer_operators(a, b, e.span);
}


/// On two `bool` constants `==` and `!=` compare them and `&&` and `||` are the logical
/// operations; on two `f32` constants `<` is `>` with the operands exchanged, `<=` is `>=` with
/// them exchanged, `!=` is the negation of `==`, `==` is symmetric, and `<=` holds exactly when
/// `<` or `==` does.
pub proof fn lemma_boolean_and_float_operators(a: bool, b: bool, x: u32, y: u32, span: Span)
    ensures
        fold_binary(ConstValue::Bool(a), BinaryOp::Equal, ConstValue::Bool(b), span) == Outcome::Value(
            ConstValue::Bool(a == b),
        ),
        fold_binary(ConstValue::Bool(a), BinaryOp::NotEqual, ConstValue::Bool(b), span) == Outcome::Value(
            ConstValue::Bool(a != b),
        ),
        fold_binary(ConstValue::Bool(a), BinaryOp::LogicalAnd, ConstValue::Bool(b), span) == Outcome::Value(
            ConstValue::Bool(a && b),
        ),
        fold_binary(ConstValue::Bool(a), BinaryOp::LogicalOr, ConstValue::Bool(b), span) == Outcome::Value(
            ConstValue::Bool(a || b),
        ),
        fold_binary(ConstValue::F32(x), BinaryOp::Less, ConstValue::F32(y), span) == fold_binary(
            ConstValue::F32(y),
            BinaryOp::Greater,
            ConstValue::F32(x),
            span,
        ),
        fold_binary(ConstValue::F32(x), BinaryOp::LessEqual, ConstValue::F32(y), span) == fold_binary(
            ConstValue::F32(y),
            BinaryOp::GreaterEqual,
            ConstValue::F32(x),
            span,
        ),
        fold_binary(ConstValue::F32(x), BinaryOp::Equal, ConstValue::F32(y), span) == fold_binary(
            ConstValue::F32(y),
            BinaryOp::Equal,
            ConstValue::F32(x),
            span,
        ),
        fold_binary(ConstValue::F32(x), BinaryOp::Equal, ConstValue::F32(y), span) matches Outcome::Value(
            ConstValue::Bool(eq),
        ) && fold_binary(ConstValue::F32(x), BinaryOp::NotEqual, ConstValue::F32(y), span) == Outcome::Value(
            ConstValue::Bool(!eq),
        ),
        fold_binary(ConstValue::F32(x), BinaryOp::Less, ConstValue::F32(y), span) matches Outcome::Value(
            ConstValue::Bool(lt),
        ) && fold_binary(ConstValue::F32(x), BinaryOp::Equal, ConstValue::F32(y), span) matches Outcome::Value(
            ConstValue::Bool(eq),
        ) && fold_binary(ConstValue::F32(x), BinaryOp::LessEqual, ConstValue::F32(y), span) == Outcome::Value(
            ConstValue::Bool(lt || eq),
        ),
        x == y ==> fold_binary(ConstValue::F32(x), BinaryOp::Equal, ConstValue::F32(y), span) == Outcome::Value(
            ConstValue::Bool(true),
        ),
{
}

} // verus!
