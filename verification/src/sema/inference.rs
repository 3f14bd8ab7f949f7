//! Inferring the types of expressions and reporting what is wrong with them.
use vstd::prelude::*;

use crate::ast::{BinaryOp, Expr, ExprKind, FieldInitializer, Global, ReturnType, StructDecl, StructField, UnaryOp, ValueType};
use crate::diagnostic::{Diagnostic, Span};
use crate::sema::findings;
use crate::sema::typing::{
    args_spec, call_spec, conversion_spec, field_spec, index_spec, infer_all_spec, initializer_values_spec,
    initializers_spec, initializes, missing_findings, struct_literal_spec,
    binary_outcome, elements_spec, float_literal_finite, infer_spec, require_value_as_spec, require_value_spec, same_type,
    binding_of, const_int, lemma_lookup_named, named_values, constant_index_findings, expects_found, first_field, index_type_findings, is_min_magnitude,
    latest, latest_global, latest_struct, one, quoted_pair, scope_binding, Binding, Env, Mutability,
};
use crate::text::{owned, push_decimal, push_signed_decimal, push_str, str_equal};

verus! {

/// The scopes of a function body as sequences of bindings, innermost last.
pub open spec fn scopes_view(scopes: Seq<Vec<(String, Binding)>>) -> Seq<Seq<(String, Binding)>> {
    scopes.map_values(|scope: Vec<(String, Binding)>| scope@)
}

// ---------------------------------------------------------------------------------------------
// Looking names up

/// The position of the latest entry named `name`.
pub fn find_latest<T>(entries: &Vec<(String, T)>, name: &str) -> (found: Option<usize>)
    ensures
        match found {
            Some(i) => i < entries@.len() && latest(entries@, name@) == Some(entries@[i as int].1),
            None => latest(entries@, name@) is None,
        },
{
    let mut k: usize = entries.len();
    assert(entries@.subrange(0, k as int) == entries@);
    while k > 0
        invariant
            k <= entries@.len(),
            latest(entries@, name@) == latest(entries@.subrange(0, k as int), name@),
        decreases k,
    {
        let ghost prefix = entries@.subrange(0, k as int);
        assert(prefix.drop_last() == entries@.subrange(0, k - 1));
        assert(prefix.last() == entries@[k - 1]);
        if str_equal(entries[k - 1].0.as_str(), name) {
            return Some(k - 1);
        }
        k -= 1;
    }
    None
}

/// The position of the latest global named `name`.
pub(crate) fn find_global(globals: &Vec<Global>, name: &str) -> (found: Option<usize>)
    ensures
        match found {
            Some(i) => i < globals@.len() && latest_global(globals@, name@) == Some(globals@[i as int].ty),
            None => latest_global(globals@, name@) is None,
        },
{
    let mut k: usize = globals.len();
    assert(globals@.subrange(0, k as int) == globals@);
    while k > 0
        invariant
            k <= globals@.len(),
            latest_global(globals@, name@) == latest_global(globals@.subrange(0, k as int), name@),
        decreases k,
    {
        let ghost prefix = globals@.subrange(0, k as int);
        assert(prefix.drop_last() == globals@.subrange(0, k - 1));
        assert(prefix.last() == globals@[k - 1]);
        if str_equal(globals[k - 1].name.as_str(), name) {
            return Some(k - 1);
        }
        k -= 1;
    }
    None
}

/// The latest struct declaration named `name`.
pub fn find_struct<'a>(structs: &'a Vec<StructDecl>, name: &str) -> (found: Option<&'a StructDecl>)
    ensures
        match found {
            Some(d) => latest_struct(structs@, name@) == Some(*d),
            None => latest_struct(structs@, name@) is None,
        },
{
    let mut k: usize = structs.len();
    assert(structs@.subrange(0, k as int) == structs@);
    while k > 0
        invariant
            k <= structs@.len(),
            latest_struct(structs@, name@) == latest_struct(structs@.subrange(0, k as int), name@),
        decreases k,
    {
        let ghost prefix = structs@.subrange(0, k as int);
        assert(prefix.drop_last() == structs@.subrange(0, k - 1));
        assert(prefix.last() == structs@[k - 1]);
        if str_equal(structs[k - 1].name.as_str(), name) {
            return Some(&structs[k - 1]);
        }
        k -= 1;
    }
    None
}

/// The first field named `name`.
pub fn find_field<'a>(fields: &'a Vec<StructField>, name: &str) -> (found: Option<&'a StructField>)
    ensures
        match found {
            Some(f) => first_field(fields@, name@) == Some(*f),
            None => first_field(fields@, name@) is None,
        },
{
    let mut k: usize = 0;
    assert(fields@.subrange(0, fields@.len() as int) == fields@);
    while k < fields.len()
        invariant
            k <= fields@.len(),
            first_field(fields@, name@) == first_field(fields@.subrange(k as int, fields@.len() as int), name@),
        decreases fields.len() - k,
    {
        let ghost rest = fields@.subrange(k as int, fields@.len() as int);
        assert(rest.drop_first() == fields@.subrange(k + 1, fields@.len() as int));
        assert(rest[0] == fields@[k as int]);
        if str_equal(fields[k].name.as_str(), name) {
            return Some(&fields[k]);
        }
        k += 1;
    }
    None
}

/// What a name refers to: a local of the innermost scope that has one, then a global, then a
/// constant.
pub fn lookup(env: &Env, scopes: &Vec<Vec<(String, Binding)>>, name: &str) -> (found: Option<(ValueType, Mutability)>)
    ensures
        found == binding_of(*env, scopes_view(scopes@), name@),
{
    let ghost all = scopes_view(scopes@);
    let mut k: usize = scopes.len();
    assert(all.subrange(0, k as int) == all);
    while k > 0
        invariant
            k <= scopes@.len(),
            all == scopes_view(scopes@),
            scope_binding(all, name@) == scope_binding(all.subrange(0, k as int), name@),
        decreases k,
    {
        let ghost prefix = all.subrange(0, k as int);
        assert(prefix.drop_last() == all.subrange(0, k - 1));
        assert(prefix.last() == scopes@[k - 1]@);
        match find_latest(&scopes[k - 1], name) {
            Some(i) => {
                let binding = &scopes[k - 1][i].1;
                return Some((binding.ty.clone(), binding.mutability));
            },
            None => {},
        }
        k -= 1;
    }
    assert(all.subrange(0, 0) =~= Seq::<Seq<(String, Binding)>>::empty());
    match find_global(env.globals, name) {
        Some(i) => Some((env.globals[i].ty.clone(), Mutability::Mutable)),
        None => match find_latest(env.constants, name) {
            Some(i) => Some((env.constants[i].1.clone(), Mutability::Constant)),
            None => None,
        },
    }
}

// ---------------------------------------------------------------------------------------------
// Reporting

/// Appends a diagnostic.
pub fn report(diagnostics: &mut Vec<Diagnostic>, message: String, span: Span)
    ensures
        findings(final(diagnostics)@) == findings(old(diagnostics)@) + one(message@, span),
{
    let ghost before = diagnostics@;
    diagnostics.push(Diagnostic::new(message, span));
    assert(findings(diagnostics@) =~= findings(before) + one(message@, span));
}

/// `a`, then `b`, then `c`.
pub fn join3(a: &str, b: &str, c: &str) -> (text: String)
    ensures
        text@ == a@ + b@ + c@,
{
    let mut text = owned(a);
    push_str(&mut text, b);
    push_str(&mut text, c);
    text
}

/// `` `a` and `b` `` for two types.
fn quoted_pair_text(a: &ValueType, b: &ValueType) -> (text: String)
    ensures
        text@ == quoted_pair(*a, *b),
{
    let an = a.name();
    let bn = b.name();
    let mut text = owned("`");
    push_str(&mut text, an.as_str());
    push_str(&mut text, "` and `");
    push_str(&mut text, bn.as_str());
    push_str(&mut text, "`");
    text
}

/// `` expects `expected`, but found `actual` ``.
pub(crate) fn expects_found_text(expected: &ValueType, actual: &str) -> (text: String)
    ensures
        text@ == expects_found(*expected, actual@),
{
    let en = expected.name();
    let mut text = owned(" expects `");
    push_str(&mut text, en.as_str());
    push_str(&mut text, "`, but found `");
    push_str(&mut text, actual);
    push_str(&mut text, "`");
    text
}

/// Reports an array index whose type is not `i32`.
pub(crate) fn check_index_type(index_type: &Option<ValueType>, span: Span, diagnostics: &mut Vec<Diagnostic>)
    ensures
        findings(final(diagnostics)@) == findings(old(diagnostics)@) + index_type_findings(*index_type, span),
{
    match index_type {
        Some(t) => match t {
            ValueType::I32 => {
                assert(findings(diagnostics@) =~= findings(old(diagnostics)@) + index_type_findings(*index_type, span));
            },
            _ => {
                let name = t.name();
                report(diagnostics, join3("array index must be i32, found `", name.as_str(), "`"), span);
            },
        },
        None => {
            assert(findings(diagnostics@) =~= findings(old(diagnostics)@) + index_type_findings(*index_type, span));
        },
    }
}

// ---------------------------------------------------------------------------------------------
// Constant indices

/// The value of an `i32` constant expression, as `const_int` describes it.
pub fn constant_int(values: &Vec<(String, i32)>, e: &Expr) -> (value: Option<i32>)
    ensures
        value == const_int(named_values(values@), *e),
    decreases e,
{
    match &e.kind {
        ExprKind::I32(v) => {
            if i32::MIN as i64 <= *v && *v <= i32::MAX as i64 {
                Some(*v as i32)
            } else {
                None
            }
        },
        ExprKind::Variable(name) => {
            proof {
                lemma_lookup_named(values@, name@);
            }
            match find_latest(values, name.as_str()) {
                Some(i) => Some(values[i].1),
                None => None,
            }
        },
        ExprKind::Unary { op: UnaryOp::Negate, operand } => {
            if min_magnitude(operand) {
                Some(i32::MIN)
            } else {
                match constant_int(values, operand) {
                    Some(v) => if v == i32::MIN {
                        None
                    } else {
                        Some(-v)
                    },
                    None => None,
                }
            }
        },
        ExprKind::Binary { left, op, right } => {
            let l = constant_int(values, left);
            let r = constant_int(values, right);
            match (l, r) {
                (Some(l), Some(r)) => match op {
                    BinaryOp::Add => l.checked_add(r),
                    BinaryOp::Subtract => l.checked_sub(r),
                    BinaryOp::Multiply => l.checked_mul(r),
                    BinaryOp::Divide => l.checked_div(r),
                    _ => None,
                },
                _ => None,
            }
        },
        ExprKind::Conversion { target: ValueType::I32, args } => {
            if args.len() == 1 {
                assert(decreases_to!(args@ => args@[0]));
                constant_int(values, &args[0])
            } else {
                None
            }
        },
        _ => None,
    }
}

/// Whether an expression is the literal 2147483648.
fn min_magnitude(e: &Expr) -> (is: bool)
    ensures
        is == is_min_magnitude(*e),
{
    match &e.kind {
        ExprKind::I32(v) => *v == 2147483648,
        _ => false,
    }
}

/// Reports an index into an array of length `length` whose value is a constant outside it.
pub(crate) fn check_constant_index(values: &Vec<(String, i32)>, index: &Expr, length: usize, diagnostics: &mut Vec<Diagnostic>)
    ensures
        findings(final(diagnostics)@) == findings(old(diagnostics)@) + constant_index_findings(named_values(values@), *index, length),
{
    match constant_int(values, index) {
        Some(v) => {
            if v < 0 || v as usize >= length {
                let mut message = owned("constant index ");
                push_signed_decimal(&mut message, v as i64);
                push_str(&mut message, " is out of bounds for length ");
                push_decimal(&mut message, length as u64);
                report(diagnostics, message, index.span);
            } else {
                assert(findings(diagnostics@) =~= findings(old(diagnostics)@) + constant_index_findings(named_values(values@), *index, length));
            }
        },
        None => {
            assert(findings(diagnostics@) =~= findings(old(diagnostics)@) + constant_index_findings(named_values(values@), *index, length));
        },
    }
}

// ---------------------------------------------------------------------------------------------
// Expressions

/// A copy of a return type.
pub(crate) fn copy_return(r: &ReturnType) -> (copy: ReturnType)
    ensures
        copy == *r,
{
    match r {
        ReturnType::Value(t) => ReturnType::Value(t.clone()),
        ReturnType::Void => ReturnType::Void,
    }
}

/// Infers the type of an expression and reports what is wrong with it.
pub fn infer(env: &Env, scopes: &Vec<Vec<(String, Binding)>>, e: &Expr, diagnostics: &mut Vec<Diagnostic>) -> (t: Option<ReturnType>)
    ensures
        t == infer_spec(*env, scopes_view(scopes@), *e).0,
        findings(final(diagnostics)@) == findings(old(diagnostics)@) + infer_spec(*env, scopes_view(scopes@), *e).1,
    decreases e, 1int,
{
    let ghost before = findings(diagnostics@);
    match &e.kind {
        ExprKind::I32(v) => {
            if !(i32::MIN as i64 <= *v && *v <= i32::MAX as i64) {
                report(diagnostics, owned("integer literal does not fit in `i32`"), e.span);
            } else {
                assert(findings(diagnostics@) =~= before + Seq::<(Seq<char>, Span)>::empty());
            }
            Some(ReturnType::Value(ValueType::I32))
        },
        ExprKind::F32(text) => {
            if !float_literal_finite(text.as_str()) {
                report(diagnostics, owned("floating-point literal must be finite"), e.span);
            } else {
                assert(findings(diagnostics@) =~= before + Seq::<(Seq<char>, Span)>::empty());
            }
            Some(ReturnType::Value(ValueType::F32))
        },
        ExprKind::Bool(_) => {
            assert(findings(diagnostics@) =~= before + Seq::<(Seq<char>, Span)>::empty());
            Some(ReturnType::Value(ValueType::Bool))
        },
        ExprKind::ArrayLiteral(_) => {
            report(diagnostics, owned("array literal requires an explicit array type annotation"), e.span);
            None
        },
        ExprKind::StructLiteral { .. } => check_struct_literal(env, scopes, e, diagnostics),
        ExprKind::Variable(name) => match lookup(env, scopes, name.as_str()) {
            Some((ty, _)) => {
                assert(findings(diagnostics@) =~= before + Seq::<(Seq<char>, Span)>::empty());
                Some(ReturnType::Value(ty))
            },
            None => {
                report(diagnostics, join3("unknown variable `", name.as_str(), "`"), e.span);
                None
            },
        },
        ExprKind::Index { .. } => check_index(env, scopes, e, diagnostics),
        ExprKind::Field { .. } => check_field(env, scopes, e, diagnostics),
        ExprKind::Unary { op, operand } => {
            if *op == UnaryOp::Negate && min_magnitude(operand) {
                assert(findings(diagnostics@) =~= before + Seq::<(Seq<char>, Span)>::empty());
                return Some(ReturnType::Value(ValueType::I32));
            }
            let t = require_value(env, scopes, operand, "unary operator", diagnostics);
            match t {
                Some(ty) => {
                    let numeric = ty.is_numeric();
                    let boolean = match ty {
                        ValueType::Bool => true,
                        _ => false,
                    };
                    if *op == UnaryOp::Negate && numeric {
                        Some(ReturnType::Value(ty))
                    } else if *op == UnaryOp::Not && boolean {
                        Some(ReturnType::Value(ValueType::Bool))
                    } else if *op == UnaryOp::Negate {
                        report(diagnostics, owned("unary `-` requires `i32` or `f32`"), e.span);
                        None
                    } else {
                        report(diagnostics, owned("unary `!` requires `bool`"), e.span);
                        None
                    }
                },
                None => None,
            }
        },
        ExprKind::Binary { left, op, right } => {
            let l = require_value(env, scopes, left, "operator operand", diagnostics);
            let r = require_value(env, scopes, right, "operator operand", diagnostics);
            match (l, r) {
                (Some(lt), Some(rt)) => binary(*op, lt, rt, e.span, diagnostics),
                _ => None,
            }
        },
        ExprKind::Call { .. } => check_call(env, scopes, e, diagnostics),
        ExprKind::Conversion { .. } => check_conversion(env, scopes, e, diagnostics),
    }
}

/// The type of a binary operator's result, reporting operands it does not take.
fn binary(op: BinaryOp, l: ValueType, r: ValueType, span: Span, diagnostics: &mut Vec<Diagnostic>) -> (t: Option<ReturnType>)
    ensures
        t == binary_outcome(op, l, r, span).0,
        findings(final(diagnostics)@) == findings(old(diagnostics)@) + binary_outcome(op, l, r, span).1,
{
    let ghost before = findings(diagnostics@);
    let l_bool = match l {
        ValueType::Bool => true,
        _ => false,
    };
    let r_bool = match r {
        ValueType::Bool => true,
        _ => false,
    };
    if op == BinaryOp::LogicalAnd || op == BinaryOp::LogicalOr {
        if !l_bool || !r_bool {
            let pair = quoted_pair_text(&l, &r);
            let mut message = owned("Boolean operator requires `bool` operands, found ");
            push_str(&mut message, pair.as_str());
            report(diagnostics, message, span);
            return None;
        }
        assert(findings(diagnostics@) =~= before + Seq::<(Seq<char>, Span)>::empty());
        return Some(ReturnType::Value(ValueType::Bool));
    }
    if !same_type(&l, &r) {
        let pair = quoted_pair_text(&l, &r);
        let mut message = owned("operator operands must have the same type, found ");
        push_str(&mut message, pair.as_str());
        report(diagnostics, message, span);
        return None;
    }
    let numeric = l.is_numeric();
    if op == BinaryOp::Add || op == BinaryOp::Subtract || op == BinaryOp::Multiply || op == BinaryOp::Divide {
        if numeric {
            assert(findings(diagnostics@) =~= before + Seq::<(Seq<char>, Span)>::empty());
            Some(ReturnType::Value(l))
        } else {
            report(diagnostics, owned("arithmetic requires `i32` or `f32` operands"), span);
            None
        }
    } else if op == BinaryOp::Less || op == BinaryOp::LessEqual || op == BinaryOp::Greater || op == BinaryOp::GreaterEqual {
        if numeric {
            assert(findings(diagnostics@) =~= before + Seq::<(Seq<char>, Span)>::empty());
            Some(ReturnType::Value(ValueType::Bool))
        } else {
            report(diagnostics, owned("ordering comparison requires numeric operands"), span);
            None
        }
    } else {
        if numeric || l_bool {
            assert(findings(diagnostics@) =~= before + Seq::<(Seq<char>, Span)>::empty());
            Some(ReturnType::Value(ValueType::Bool))
        } else {
            report(diagnostics, owned("equality comparison requires scalar operands"), span);
            None
        }
    }
}

/// The value type of an expression that must have one; `void` is reported.
pub fn require_value(
    env: &Env,
    scopes: &Vec<Vec<(String, Binding)>>,
    e: &Expr,
    description: &str,
    diagnostics: &mut Vec<Diagnostic>,
) -> (t: Option<ValueType>)
    ensures
        t == require_value_spec(*env, scopes_view(scopes@), *e, description@).0,
        findings(final(diagnostics)@) == findings(old(diagnostics)@) + require_value_spec(*env, scopes_view(scopes@), *e, description@).1,
    decreases e, 2int,
{
    let t = infer(env, scopes, e, diagnostics);
    match t {
        Some(ReturnType::Value(ty)) => Some(ty),
        Some(ReturnType::Void) => {
            let mut message = owned(description);
            push_str(&mut message, " requires a value, but found `void`");
            let ghost mid = findings(diagnostics@);
            report(diagnostics, message, e.span);
            assert(findings(diagnostics@) == mid + one(description@ + " requires a value, but found `void`"@, e.span));
            None
        },
        None => None,
    }
}

/// Like `require_value`, but an array literal takes the expected array type.
pub fn require_value_as(
    env: &Env,
    scopes: &Vec<Vec<(String, Binding)>>,
    e: &Expr,
    expected: &ValueType,
    description: &str,
    diagnostics: &mut Vec<Diagnostic>,
) -> (t: Option<ValueType>)
    ensures
        t == require_value_as_spec(*env, scopes_view(scopes@), *e, *expected, description@).0,
        findings(final(diagnostics)@) == findings(old(diagnostics)@) + require_value_as_spec(*env, scopes_view(scopes@), *e, *expected, description@).1,
    decreases e, 3int,
{
    let ghost before = findings(diagnostics@);
    if expected.has_invalid_array_length() {
        assert(findings(diagnostics@) =~= before + Seq::<(Seq<char>, Span)>::empty());
        return Some(expected.clone());
    }
    match &e.kind {
        ExprKind::ArrayLiteral(elements) => match expected.resolved_array() {
            Some((element, n)) => {
                if elements.len() != n {
                    let mut message = owned("expected array length ");
                    push_decimal(&mut message, n as u64);
                    push_str(&mut message, ", found ");
                    push_decimal(&mut message, elements.len() as u64);
                    push_str(&mut message, " elements");
                    report(diagnostics, message, e.span);
                } else {
                    assert(findings(diagnostics@) =~= before + Seq::<(Seq<char>, Span)>::empty());
                }
                let ghost mid = findings(diagnostics@);
                check_elements(env, scopes, elements, element, diagnostics);
                assert(findings(diagnostics@) =~= before + require_value_as_spec(*env, scopes_view(scopes@), *e, *expected, description@).1);
                Some(expected.clone())
            },
            None => {
                let name = expected.name();
                let mut message = owned(description);
                push_str(&mut message, " is an array literal, but the declared type is `");
                push_str(&mut message, name.as_str());
                push_str(&mut message, "`");
                report(diagnostics, message, e.span);
                None
            },
        },
        _ => require_value(env, scopes, e, description, diagnostics),
    }
}

/// Checks the elements of an array literal against the element type.
fn check_elements(
    env: &Env,
    scopes: &Vec<Vec<(String, Binding)>>,
    elements: &Vec<Expr>,
    element: &ValueType,
    diagnostics: &mut Vec<Diagnostic>,
)
    ensures
        findings(final(diagnostics)@) == findings(old(diagnostics)@) + elements_spec(*env, scopes_view(scopes@), elements@, *element),
    decreases elements@, 0int,
{
    let ghost sv = scopes_view(scopes@);
    let mut k: usize = 0;
    while k < elements.len()
        invariant
            k <= elements@.len(),
            sv == scopes_view(scopes@),
            findings(diagnostics@) == findings(old(diagnostics)@) + elements_spec(*env, sv, elements@.subrange(0, k as int), *element),
        decreases elements.len() - k,
    {
        let ghost prefix = elements@.subrange(0, k + 1);
        assert(prefix.subrange(0, prefix.len() - 1) == elements@.subrange(0, k as int));
        assert(prefix[prefix.len() - 1] == elements@[k as int]);
        assert(decreases_to!(elements@ => elements@[k as int]));
        let ghost mid = findings(diagnostics@);
        let a = require_value_as(env, scopes, &elements[k], element, "array element", diagnostics);
        match a {
            Some(actual) => {
                if !same_type(&actual, element) {
                    let name = actual.name();
                    let tail = expects_found_text(element, name.as_str());
                    let mut message = owned("array element");
                    push_str(&mut message, tail.as_str());
                    report(diagnostics, message, elements[k].span);
                } else {
                    assert(findings(diagnostics@) =~= findings(diagnostics@) + Seq::<(Seq<char>, Span)>::empty());
                }
            },
            None => {
                assert(findings(diagnostics@) =~= findings(diagnostics@) + Seq::<(Seq<char>, Span)>::empty());
            },
        }
        assert(findings(diagnostics@) =~= findings(old(diagnostics)@) + elements_spec(*env, sv, prefix, *element));
        k += 1;
    }
    assert(elements@.subrange(0, k as int) == elements@);
}

/// Infers each expression of a list, for what it reports.
fn infer_each(env: &Env, scopes: &Vec<Vec<(String, Binding)>>, list: &Vec<Expr>, diagnostics: &mut Vec<Diagnostic>)
    ensures
        findings(final(diagnostics)@) == findings(old(diagnostics)@) + infer_all_spec(*env, scopes_view(scopes@), list@),
    decreases list@, 0int,
{
    let ghost sv = scopes_view(scopes@);
    let mut k: usize = 0;
    while k < list.len()
        invariant
            k <= list@.len(),
            sv == scopes_view(scopes@),
            findings(diagnostics@) == findings(old(diagnostics)@) + infer_all_spec(*env, sv, list@.subrange(0, k as int)),
        decreases list.len() - k,
    {
        let ghost prefix = list@.subrange(0, k + 1);
        assert(prefix.subrange(0, prefix.len() - 1) == list@.subrange(0, k as int));
        assert(prefix[prefix.len() - 1] == list@[k as int]);
        assert(decreases_to!(list@ => list@[k as int]));
        let _ = infer(env, scopes, &list[k], diagnostics);
        assert(findings(diagnostics@) =~= findings(old(diagnostics)@) + infer_all_spec(*env, sv, prefix));
        k += 1;
    }
    assert(list@.subrange(0, k as int) == list@);
}

/// Checks a call against the called function's signature.
fn check_call(env: &Env, scopes: &Vec<Vec<(String, Binding)>>, e: &Expr, diagnostics: &mut Vec<Diagnostic>) -> (t: Option<ReturnType>)
    ensures
        t == call_spec(*env, scopes_view(scopes@), *e).0,
        findings(final(diagnostics)@) == findings(old(diagnostics)@) + call_spec(*env, scopes_view(scopes@), *e).1,
    decreases e, 0int,
{
    let ghost before = findings(diagnostics@);
    match &e.kind {
        ExprKind::Call { name, args } => match find_latest(env.functions, name.as_str()) {
            None => {
                report(diagnostics, join3("unknown function `", name.as_str(), "`"), e.span);
                let ghost mid = findings(diagnostics@);
                infer_each(env, scopes, args, diagnostics);
                assert(findings(diagnostics@) =~= before + call_spec(*env, scopes_view(scopes@), *e).1);
                None
            },
            Some(i) => {
                let signature = &env.functions[i].1;
                if args.len() != signature.params.len() {
                    let mut message = owned("function `");
                    push_str(&mut message, name.as_str());
                    push_str(&mut message, "` expects ");
                    push_decimal(&mut message, signature.params.len() as u64);
                    push_str(&mut message, " argument(s), but received ");
                    push_decimal(&mut message, args.len() as u64);
                    report(diagnostics, message, e.span);
                } else {
                    assert(findings(diagnostics@) =~= before + Seq::<(Seq<char>, Span)>::empty());
                }
                let ghost mid = findings(diagnostics@);
                check_args(env, scopes, name.as_str(), &signature.params, args, diagnostics);
                assert(findings(diagnostics@) =~= before + call_spec(*env, scopes_view(scopes@), *e).1);
                Some(copy_return(&signature.return_type))
            },
        },
        _ => {
            assert(findings(diagnostics@) =~= before + Seq::<(Seq<char>, Span)>::empty());
            None
        },
    }
}

/// Checks the arguments of a call to `name` against its parameter types.
fn check_args(
    env: &Env,
    scopes: &Vec<Vec<(String, Binding)>>,
    name: &str,
    params: &Vec<ValueType>,
    args: &Vec<Expr>,
    diagnostics: &mut Vec<Diagnostic>,
)
    ensures
        findings(final(diagnostics)@) == findings(old(diagnostics)@) + args_spec(*env, scopes_view(scopes@), name@, params@, args@),
    decreases args@, 0int,
{
    let ghost sv = scopes_view(scopes@);
    let mut k: usize = 0;
    while k < args.len()
        invariant
            k <= args@.len(),
            sv == scopes_view(scopes@),
            findings(diagnostics@) == findings(old(diagnostics)@) + args_spec(*env, sv, name@, params@, args@.subrange(0, k as int)),
        decreases args.len() - k,
    {
        let ghost prefix = args@.subrange(0, k + 1);
        assert(prefix.subrange(0, k as int) == args@.subrange(0, k as int));
        assert(prefix[k as int] == args@[k as int]);
        assert(decreases_to!(args@ => args@[k as int]));
        let a = require_value(env, scopes, &args[k], "function argument", diagnostics);
        match a {
            Some(actual) => {
                if k < params.len() && !same_type(&params[k], &actual) {
                    let actual_name = actual.name();
                    let tail = expects_found_text(&params[k], actual_name.as_str());
                    let mut message = owned("argument ");
                    push_decimal(&mut message, (k + 1) as u64);
                    push_str(&mut message, " to `");
                    push_str(&mut message, name);
                    push_str(&mut message, "`");
                    push_str(&mut message, tail.as_str());
                    report(diagnostics, message, args[k].span);
                } else {
                    assert(findings(diagnostics@) =~= findings(diagnostics@) + Seq::<(Seq<char>, Span)>::empty());
                }
            },
            None => {
                assert(findings(diagnostics@) =~= findings(diagnostics@) + Seq::<(Seq<char>, Span)>::empty());
            },
        }
        assert(findings(diagnostics@) =~= findings(old(diagnostics)@) + args_spec(*env, sv, name@, params@, prefix));
        k += 1;
    }
    assert(args@.subrange(0, k as int) == args@);
}

/// Checks a numeric conversion.
fn check_conversion(env: &Env, scopes: &Vec<Vec<(String, Binding)>>, e: &Expr, diagnostics: &mut Vec<Diagnostic>) -> (t: Option<ReturnType>)
    ensures
        t == conversion_spec(*env, scopes_view(scopes@), *e).0,
        findings(final(diagnostics)@) == findings(old(diagnostics)@) + conversion_spec(*env, scopes_view(scopes@), *e).1,
    decreases e, 0int,
{
    let ghost before = findings(diagnostics@);
    match &e.kind {
        ExprKind::Conversion { target, args } => {
            if args.len() != 1 {
                let target_name = target.name();
                let mut message = owned("conversion to `");
                push_str(&mut message, target_name.as_str());
                push_str(&mut message, "` expects 1 argument, but received ");
                push_decimal(&mut message, args.len() as u64);
                report(diagnostics, message, e.span);
                infer_each(env, scopes, args, diagnostics);
                assert(findings(diagnostics@) =~= before + conversion_spec(*env, scopes_view(scopes@), *e).1);
                return None;
            }
            assert(decreases_to!(args@ => args@[0]));
            let arg = &args[0];
            let t = infer(env, scopes, arg, diagnostics);
            match t {
                Some(ReturnType::Value(ValueType::I32)) => Some(ReturnType::Value(target.clone())),
                Some(ReturnType::Value(ValueType::F32)) => Some(ReturnType::Value(target.clone())),
                Some(ReturnType::Value(ValueType::Bool)) => {
                    report(diagnostics, owned("cannot convert `bool` to a numeric type"), arg.span);
                    None
                },
                Some(ReturnType::Value(ValueType::Array { .. })) => {
                    report(diagnostics, owned("cannot convert an array to a numeric type"), arg.span);
                    None
                },
                Some(ReturnType::Value(ValueType::Struct(n))) => {
                    report(diagnostics, join3("cannot convert struct `", n.as_str(), "` to a numeric type"), arg.span);
                    None
                },
                Some(ReturnType::Void) => {
                    report(diagnostics, owned("cannot convert `void` to a numeric type"), arg.span);
                    None
                },
                None => None,
            }
        },
        _ => {
            assert(findings(diagnostics@) =~= before + Seq::<(Seq<char>, Span)>::empty());
            None
        },
    }
}

/// Checks an index expression.
fn check_index(env: &Env, scopes: &Vec<Vec<(String, Binding)>>, e: &Expr, diagnostics: &mut Vec<Diagnostic>) -> (t: Option<ReturnType>)
    ensures
        t == index_spec(*env, scopes_view(scopes@), *e).0,
        findings(final(diagnostics)@) == findings(old(diagnostics)@) + index_spec(*env, scopes_view(scopes@), *e).1,
    decreases e, 0int,
{
    let ghost before = findings(diagnostics@);
    match &e.kind {
        ExprKind::Index { base, index } => {
            let b = require_value(env, scopes, base, "indexed expression", diagnostics);
            match b {
                None => None,
                Some(base_type) => {
                    let i = require_value(env, scopes, index, "array index", diagnostics);
                    check_index_type(&i, index.span, diagnostics);
                    let ghost f = findings(diagnostics@);
                    if base_type.has_invalid_array_length() {
                        return None;
                    }
                    match base_type.resolved_array() {
                        Some((element, n)) => {
                            check_constant_index(env.values, index, n, diagnostics);
                            Some(ReturnType::Value(element.clone()))
                        },
                        None => {
                            let name = base_type.name();
                            report(diagnostics, join3("cannot index value of type `", name.as_str(), "`"), e.span);
                            None
                        },
                    }
                },
            }
        },
        _ => {
            assert(findings(diagnostics@) =~= before + Seq::<(Seq<char>, Span)>::empty());
            None
        },
    }
}

/// Checks a field access.
fn check_field(env: &Env, scopes: &Vec<Vec<(String, Binding)>>, e: &Expr, diagnostics: &mut Vec<Diagnostic>) -> (t: Option<ReturnType>)
    ensures
        t == field_spec(*env, scopes_view(scopes@), *e).0,
        findings(final(diagnostics)@) == findings(old(diagnostics)@) + field_spec(*env, scopes_view(scopes@), *e).1,
    decreases e, 0int,
{
    let ghost before = findings(diagnostics@);
    match &e.kind {
        ExprKind::Field { base, name, name_span } => {
            let b = require_value(env, scopes, base, "field access", diagnostics);
            match b {
                None => None,
                Some(base_type) => match &base_type {
                    ValueType::Struct(struct_name) => match find_struct(env.structs, struct_name.as_str()) {
                        None => {
                            report(diagnostics, join3("unknown struct type `", struct_name.as_str(), "`"), base.span);
                            None
                        },
                        Some(declaration) => match find_field(&declaration.fields, name.as_str()) {
                            None => {
                                let mut message = owned("type `");
                                push_str(&mut message, struct_name.as_str());
                                push_str(&mut message, "` has no field named `");
                                push_str(&mut message, name.as_str());
                                push_str(&mut message, "`");
                                report(diagnostics, message, *name_span);
                                None
                            },
                            Some(field) => Some(ReturnType::Value(field.ty.clone())),
                        },
                    },
                    _ => {
                        let base_name = base_type.name();
                        report(diagnostics, join3("type `", base_name.as_str(), "` has no fields"), *name_span);
                        None
                    },
                },
            }
        },
        _ => {
            assert(findings(diagnostics@) =~= before + Seq::<(Seq<char>, Span)>::empty());
            None
        },
    }
}

/// Checks a struct literal against its declaration.
fn check_struct_literal(env: &Env, scopes: &Vec<Vec<(String, Binding)>>, e: &Expr, diagnostics: &mut Vec<Diagnostic>) -> (t: Option<ReturnType>)
    ensures
        t == struct_literal_spec(*env, scopes_view(scopes@), *e).0,
        findings(final(diagnostics)@) == findings(old(diagnostics)@) + struct_literal_spec(*env, scopes_view(scopes@), *e).1,
    decreases e, 0int,
{
    let ghost before = findings(diagnostics@);
    match &e.kind {
        ExprKind::StructLiteral { name, fields } => match find_struct(env.structs, name.as_str()) {
            None => {
                report(diagnostics, join3("unknown struct type `", name.as_str(), "`"), e.span);
                infer_initializer_values(env, scopes, fields, diagnostics);
                assert(findings(diagnostics@) =~= before + struct_literal_spec(*env, scopes_view(scopes@), *e).1);
                None
            },
            Some(declaration) => {
                check_initializers(env, scopes, name.as_str(), &declaration.fields, fields, diagnostics);
                report_missing(name.as_str(), &declaration.fields, fields, e.span, diagnostics);
                assert(findings(diagnostics@) =~= before + struct_literal_spec(*env, scopes_view(scopes@), *e).1);
                Some(ReturnType::Value(ValueType::Struct(name.clone())))
            },
        },
        _ => {
            assert(findings(diagnostics@) =~= before + Seq::<(Seq<char>, Span)>::empty());
            None
        },
    }
}

/// Infers the value of each initializer, for what it reports.
fn infer_initializer_values(
    env: &Env,
    scopes: &Vec<Vec<(String, Binding)>>,
    inits: &Vec<FieldInitializer>,
    diagnostics: &mut Vec<Diagnostic>,
)
    ensures
        findings(final(diagnostics)@) == findings(old(diagnostics)@) + initializer_values_spec(*env, scopes_view(scopes@), inits@),
    decreases inits@, 0int,
{
    let ghost sv = scopes_view(scopes@);
    let mut k: usize = 0;
    while k < inits.len()
        invariant
            k <= inits@.len(),
            sv == scopes_view(scopes@),
            findings(diagnostics@) == findings(old(diagnostics)@) + initializer_values_spec(*env, sv, inits@.subrange(0, k as int)),
        decreases inits.len() - k,
    {
        let ghost prefix = inits@.subrange(0, k + 1);
        assert(prefix.subrange(0, prefix.len() - 1) == inits@.subrange(0, k as int));
        assert(prefix[prefix.len() - 1] == inits@[k as int]);
        assert(decreases_to!(inits@ => inits@[k as int]));
        assert(decreases_to!(inits@[k as int] => inits@[k as int].value));
        let _ = infer(env, scopes, &inits[k].value, diagnostics);
        assert(findings(diagnostics@) =~= findings(old(diagnostics)@) + initializer_values_spec(*env, sv, prefix));
        k += 1;
    }
    assert(inits@.subrange(0, k as int) == inits@);
}

/// Whether one of the first `upto` initializers names `name`.
fn initialized(inits: &Vec<FieldInitializer>, upto: usize, name: &str) -> (found: bool)
    requires
        upto <= inits@.len(),
    ensures
        found == initializes(inits@.subrange(0, upto as int), name@),
{
    let ghost earlier = inits@.subrange(0, upto as int);
    let mut k: usize = 0;
    while k < upto
        invariant
            k <= upto <= inits@.len(),
            earlier == inits@.subrange(0, upto as int),
            forall|j: int| 0 <= j < k ==> (#[trigger] earlier[j]).name@ != name@,
        decreases upto - k,
    {
        if str_equal(inits[k].name.as_str(), name) {
            assert(earlier[k as int].name@ == name@);
            return true;
        }
        k += 1;
    }
    false
}

/// Checks the initializers of a literal of struct `struct_name` against its declared fields.
fn check_initializers(
    env: &Env,
    scopes: &Vec<Vec<(String, Binding)>>,
    struct_name: &str,
    fields: &Vec<StructField>,
    inits: &Vec<FieldInitializer>,
    diagnostics: &mut Vec<Diagnostic>,
)
    ensures
        findings(final(diagnostics)@) == findings(old(diagnostics)@) + initializers_spec(*env, scopes_view(scopes@), struct_name@, fields@, inits@),
    decreases inits@, 0int,
{
    let ghost sv = scopes_view(scopes@);
    let mut k: usize = 0;
    while k < inits.len()
        invariant
            k <= inits@.len(),
            sv == scopes_view(scopes@),
            findings(diagnostics@) == findings(old(diagnostics)@) + initializers_spec(*env, sv, struct_name@, fields@, inits@.subrange(0, k as int)),
        decreases inits.len() - k,
    {
        let ghost prefix = inits@.subrange(0, k + 1);
        assert(prefix.subrange(0, prefix.len() - 1) == inits@.subrange(0, k as int));
        assert(prefix[prefix.len() - 1] == inits@[k as int]);
        assert(decreases_to!(inits@ => inits@[k as int]));
        assert(decreases_to!(inits@[k as int] => inits@[k as int].value));
        let ghost start = findings(diagnostics@);
        let init = &inits[k];
        if initialized(inits, k, init.name.as_str()) {
            let mut message = owned("field `");
            push_str(&mut message, init.name.as_str());
            push_str(&mut message, "` is initialized more than once in `");
            push_str(&mut message, struct_name);
            push_str(&mut message, "`");
            report(diagnostics, message, init.span);
            let _ = infer(env, scopes, &init.value, diagnostics);
        } else {
            match find_field(fields, init.name.as_str()) {
                None => {
                    let mut message = owned("type `");
                    push_str(&mut message, struct_name);
                    push_str(&mut message, "` has no field named `");
                    push_str(&mut message, init.name.as_str());
                    push_str(&mut message, "`");
                    report(diagnostics, message, init.span);
                    let _ = infer(env, scopes, &init.value, diagnostics);
                },
                Some(field) => {
                    let a = require_value_as(env, scopes, &init.value, &field.ty, "field initializer", diagnostics);
                    match a {
                        Some(actual) => {
                            if !same_type(&actual, &field.ty) {
                                let actual_name = actual.name();
                                let tail = expects_found_text(&field.ty, actual_name.as_str());
                                let mut message = owned("field `");
                                push_str(&mut message, field.name.as_str());
                                push_str(&mut message, "` of `");
                                push_str(&mut message, struct_name);
                                push_str(&mut message, "`");
                                push_str(&mut message, tail.as_str());
                                report(diagnostics, message, init.value.span);
                            } else {
                                assert(findings(diagnostics@) =~= findings(diagnostics@) + Seq::<(Seq<char>, Span)>::empty());
                            }
                        },
                        None => {
                            assert(findings(diagnostics@) =~= findings(diagnostics@) + Seq::<(Seq<char>, Span)>::empty());
                        },
                    }
                },
            }
        }
        assert(findings(diagnostics@) =~= findings(old(diagnostics)@) + initializers_spec(*env, sv, struct_name@, fields@, prefix));
        k += 1;
    }
    assert(inits@.subrange(0, k as int) == inits@);
}

/// Reports each declared field that no initializer names.
fn report_missing(
    struct_name: &str,
    fields: &Vec<StructField>,
    inits: &Vec<FieldInitializer>,
    span: Span,
    diagnostics: &mut Vec<Diagnostic>,
)
    ensures
        findings(final(diagnostics)@) == findings(old(diagnostics)@) + missing_findings(struct_name@, fields@, inits@, span),
{
    assert(inits@.subrange(0, inits@.len() as int) == inits@);
    let mut k: usize = 0;
    while k < fields.len()
        invariant
            k <= fields@.len(),
            inits@.subrange(0, inits@.len() as int) == inits@,
            findings(diagnostics@) == findings(old(diagnostics)@) + missing_findings(struct_name@, fields@.subrange(0, k as int), inits@, span),
        decreases fields.len() - k,
    {
        let ghost prefix = fields@.subrange(0, k + 1);
        assert(prefix.subrange(0, prefix.len() - 1) == fields@.subrange(0, k as int));
        assert(prefix[prefix.len() - 1] == fields@[k as int]);
        let field = &fields[k];
        if !initialized(inits, inits.len(), field.name.as_str()) {
            let mut message = owned("missing initializer for field `");
            push_str(&mut message, field.name.as_str());
            push_str(&mut message, "` of `");
            push_str(&mut message, struct_name);
            push_str(&mut message, "`");
            report(diagnostics, message, span);
        }
        assert(findings(diagnostics@) =~= findings(old(diagnostics)@) + missing_findings(struct_name@, prefix, inits@, span));
        k += 1;
    }
    assert(fields@.subrange(0, k as int) == fields@);
}

} // verus!
