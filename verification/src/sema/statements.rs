//! Checking the statements of function bodies, scope by scope.
use vstd::prelude::*;

use crate::ast::{AssignOp, Expr, ExprKind, Function, ReturnType, Stmt, StmtKind, ValueType};
use crate::builtins::is_predefined_constant;
use crate::diagnostic::{Diagnostic, Span};
use crate::sema::inference::{
    check_constant_index, check_index_type, expects_found_text, find_field, find_latest, find_struct, infer, join3,
    lookup, report, require_value, require_value_as, scopes_view,
};
use crate::sema::typing::{
    assign_mismatch_message, assign_spec, block_spec, bool_findings, bound_findings, constant_assign_message, function_spec, let_effect, lemma_scopes_after_innermost, lvalue_spec, one, param_array_findings,
    param_findings, params_scope, predefined_findings, return_findings, same_type, scopes_after, statement_spec, Binding,
    Env, Mutability,
};
use crate::sema::{block_returns, findings};
use crate::text::{owned, push_str};

verus! {

// ---------------------------------------------------------------------------------------------
// Assignment targets

/// The place an assignment target denotes, reporting what is wrong with it.
pub fn check_lvalue(env: &Env, scopes: &Vec<Vec<(String, Binding)>>, e: &Expr, diagnostics: &mut Vec<Diagnostic>) -> (place: Option<(ValueType, Mutability, String)>)
    ensures
        match place {
            Some((t, m, root)) => lvalue_spec(*env, scopes_view(scopes@), *e).0 == Some((t, m, root@)),
            None => lvalue_spec(*env, scopes_view(scopes@), *e).0 is None,
        },
        findings(final(diagnostics)@) == findings(old(diagnostics)@) + lvalue_spec(*env, scopes_view(scopes@), *e).1,
    decreases e,
{
    let ghost before = findings(diagnostics@);
    match &e.kind {
        ExprKind::Variable(name) => match lookup(env, scopes, name.as_str()) {
            Some((ty, mutability)) => {
                assert(findings(diagnostics@) =~= before + Seq::<(Seq<char>, Span)>::empty());
                Some((ty, mutability, name.clone()))
            },
            None => {
                report(diagnostics, join3("cannot assign to unknown variable `", name.as_str(), "`"), e.span);
                None
            },
        },
        ExprKind::Index { base, index } => {
            let root = check_lvalue(env, scopes, base, diagnostics);
            match root {
                None => None,
                Some((root_type, mutability, root_name)) => {
                    let i = require_value(env, scopes, index, "array index", diagnostics);
                    check_index_type(&i, index.span, diagnostics);
                    if root_type.has_invalid_array_length() {
                        return None;
                    }
                    match root_type.resolved_array() {
                        Some((element, n)) => {
                            check_constant_index(env.values, index, n, diagnostics);
                            Some((element.clone(), mutability, root_name))
                        },
                        None => {
                            let name = root_type.name();
                            report(diagnostics, join3("cannot index value of type `", name.as_str(), "`"), e.span);
                            None
                        },
                    }
                },
            }
        },
        ExprKind::Field { base, name, name_span } => {
            let root = check_lvalue(env, scopes, base, diagnostics);
            match root {
                None => None,
                Some((root_type, mutability, root_name)) => match &root_type {
                    ValueType::Struct(struct_name) => match find_struct(env.structs, struct_name.as_str()) {
                        None => {
                            report(diagnostics, join3("unknown struct type `", struct_name.as_str(), "`"), base.span);
                            None
                        },
                        Some(declaration) => match find_field(&declaration.fields, name.as_str()) {
                            None => {
                                let mut message = owned("type `");
                                push_str(&mut message, struct_name.as_str());
                                push_str(&mut message, "` has no field named `");
                                push_str(&mut message, name.as_str());
                                push_str(&mut message, "`");
                                report(diagnostics, message, *name_span);
                                None
                            },
                            Some(field) => Some((field.ty.clone(), mutability, root_name)),
                        },
                    },
                    _ => {
                        let root_type_name = root_type.name();
                        report(diagnostics, join3("type `", root_type_name.as_str(), "` has no fields"), *name_span);
                        None
                    },
                },
            }
        },
        _ => {
            let _ = infer(env, scopes, e, diagnostics);
            report(diagnostics, owned("invalid assignment target"), e.span);
            None
        },
    }
}

// ---------------------------------------------------------------------------------------------
// Statements

/// Reports a name that a predefined key constant already has.
fn check_predefined(name: &str, what: &str, span: Span, diagnostics: &mut Vec<Diagnostic>)
    ensures
        findings(final(diagnostics)@) == findings(old(diagnostics)@) + predefined_findings(name@, what@, span),
{
    if is_predefined_constant(name) {
        let mut message = owned(what);
        push_str(&mut message, " `");
        push_str(&mut message, name);
        push_str(&mut message, "` conflicts with a predefined key constant");
        report(diagnostics, message, span);
    } else {
        assert(findings(diagnostics@) =~= findings(old(diagnostics)@) + predefined_findings(name@, what@, span));
    }
}

/// Checks a condition that must be `bool`.
fn check_bool(env: &Env, scopes: &Vec<Vec<(String, Binding)>>, e: &Expr, description: &str, diagnostics: &mut Vec<Diagnostic>)
    ensures
        findings(final(diagnostics)@) == findings(old(diagnostics)@) + bool_findings(*env, scopes_view(scopes@), *e, description@),
{
    let ghost before = findings(diagnostics@);
    let a = require_value(env, scopes, e, description, diagnostics);
    let ghost mid = findings(diagnostics@);
    match a {
        Some(t) => match t {
            ValueType::Bool => {},
            _ => {
                let name = t.name();
                let mut message = owned(description);
                push_str(&mut message, " must be `bool`, found `");
                push_str(&mut message, name.as_str());
                push_str(&mut message, "`");
                report(diagnostics, message, e.span);
            },
        },
        None => {},
    }
    assert(findings(diagnostics@) =~= before + bool_findings(*env, scopes_view(scopes@), *e, description@));
}

/// Checks a range bound that must be `i32`.
fn check_bound(env: &Env, scopes: &Vec<Vec<(String, Binding)>>, e: &Expr, description: &str, diagnostics: &mut Vec<Diagnostic>)
    ensures
        findings(final(diagnostics)@) == findings(old(diagnostics)@) + bound_findings(*env, scopes_view(scopes@), *e, description@),
{
    let ghost before = findings(diagnostics@);
    let a = require_value(env, scopes, e, description, diagnostics);
    let ghost mid = findings(diagnostics@);
    match a {
        Some(t) => match t {
            ValueType::I32 => {},
            _ => {
                let name = t.name();
                let mut message = owned(description);
                push_str(&mut message, " must be `i32`, found `");
                push_str(&mut message, name.as_str());
                push_str(&mut message, "`");
                report(diagnostics, message, e.span);
            },
        },
        None => {},
    }
    assert(findings(diagnostics@) =~= before + bound_findings(*env, scopes_view(scopes@), *e, description@));
}

/// The message for an assignment to a constant or through one.
fn constant_assign_text(set: bool, direct: bool, root: &str) -> (text: String)
    ensures
        text@ == constant_assign_message(set, direct, root@),
{
    if set && direct {
        join3("cannot assign to constant `", root, "`")
    } else if set {
        join3("cannot assign through constant `", root, "`")
    } else if direct {
        join3("cannot use compound assignment on constant `", root, "`")
    } else {
        join3("cannot use compound assignment through constant `", root, "`")
    }
}

/// The message for an assignment of a value of the wrong type.
fn assign_mismatch_text(set: bool, direct: bool, root: &str, target: &ValueType, actual: &ValueType) -> (text: String)
    ensures
        text@ == assign_mismatch_message(set, direct, root@, *target, *actual),
{
    let target_name = target.name();
    let actual_name = actual.name();
    if set && direct {
        let mut text = owned("cannot assign `");
        push_str(&mut text, actual_name.as_str());
        push_str(&mut text, "` to variable `");
        push_str(&mut text, root);
        push_str(&mut text, "` of type `");
        push_str(&mut text, target_name.as_str());
        push_str(&mut text, "`");
        text
    } else if set {
        let mut text = owned("cannot assign `");
        push_str(&mut text, actual_name.as_str());
        push_str(&mut text, "` to target of type `");
        push_str(&mut text, target_name.as_str());
        push_str(&mut text, "`");
        text
    } else if direct {
        let tail = expects_found_text(target, actual_name.as_str());
        let mut text = owned("compound assignment to `");
        push_str(&mut text, root);
        push_str(&mut text, "`");
        push_str(&mut text, tail.as_str());
        text
    } else {
        let tail = expects_found_text(target, actual_name.as_str());
        let mut text = owned("compound assignment");
        push_str(&mut text, tail.as_str());
        text
    }
}

/// Checks an assignment.
fn check_assign(
    env: &Env,
    scopes: &Vec<Vec<(String, Binding)>>,
    target: &Expr,
    op: AssignOp,
    value: &Expr,
    span: Span,
    diagnostics: &mut Vec<Diagnostic>,
)
    ensures
        findings(final(diagnostics)@) == findings(old(diagnostics)@) + assign_spec(*env, scopes_view(scopes@), *target, op, *value, span),
{
    let ghost before = findings(diagnostics@);
    let place = check_lvalue(env, scopes, target, diagnostics);
    match place {
        None => {},
        Some((ty, mutability, root)) => {
            let set = op == AssignOp::Assign;
            let actual = if set {
                require_value_as(env, scopes, value, &ty, "assignment", diagnostics)
            } else {
                require_value(env, scopes, value, "compound assignment", diagnostics)
            };
            let ghost mid = findings(diagnostics@);
            let direct = match &target.kind {
                ExprKind::Variable(_) => true,
                _ => false,
            };
            if mutability == Mutability::LoopVariable {
                report(diagnostics, join3("loop variable `", root.as_str(), "` is read-only"), span);
            } else if mutability == Mutability::Constant {
                report(diagnostics, constant_assign_text(set, direct, root.as_str()), span);
            } else {
                if !set && !ty.is_numeric() {
                    let name = ty.name();
                    report(
                        diagnostics,
                        join3("compound assignment requires a numeric target, but found `", name.as_str(), "`"),
                        span,
                    );
                }
                match actual {
                    Some(a) => {
                        if !same_type(&ty, &a) {
                            report(diagnostics, assign_mismatch_text(set, direct, root.as_str(), &ty, &a), value.span);
                        }
                    },
                    None => {},
                }
            }
        },
    }
    assert(findings(diagnostics@) =~= before + assign_spec(*env, scopes_view(scopes@), *target, op, *value, span));
}

/// Checks a `return` in a function returning `ret`.
fn check_return(
    env: &Env,
    ret: &ReturnType,
    scopes: &Vec<Vec<(String, Binding)>>,
    value: &Option<Expr>,
    span: Span,
    diagnostics: &mut Vec<Diagnostic>,
)
    ensures
        findings(final(diagnostics)@) == findings(old(diagnostics)@) + return_findings(*env, *ret, scopes_view(scopes@), *value, span),
{
    let ghost before = findings(diagnostics@);
    match (ret, value) {
        (ReturnType::Void, None) => {},
        (ReturnType::Void, Some(v)) => {
            let _ = infer(env, scopes, v, diagnostics);
            report(diagnostics, owned("void function cannot return a value"), v.span);
        },
        (ReturnType::Value(expected), None) => {
            let name = expected.name();
            report(diagnostics, join3("return requires a value of type `", name.as_str(), "`"), span);
        },
        (ReturnType::Value(expected), Some(v)) => {
            let literal = match &v.kind {
                ExprKind::ArrayLiteral(_) => true,
                _ => false,
            };
            let r = if literal {
                match require_value_as(env, scopes, v, expected, "return", diagnostics) {
                    Some(t) => Some(ReturnType::Value(t)),
                    None => None,
                }
            } else {
                infer(env, scopes, v, diagnostics)
            };
            let ghost mid = findings(diagnostics@);
            match r {
                Some(ReturnType::Value(actual)) => {
                    if !same_type(&actual, expected) {
                        let name = actual.name();
                        let tail = expects_found_text(expected, name.as_str());
                        let mut message = owned("return");
                        push_str(&mut message, tail.as_str());
                        report(diagnostics, message, v.span);
                    }
                },
                Some(ReturnType::Void) => {
                    let tail = expects_found_text(expected, "void");
                    let mut message = owned("return");
                    push_str(&mut message, tail.as_str());
                    report(diagnostics, message, v.span);
                },
                None => {},
            }
        },
    }
    assert(findings(diagnostics@) =~= before + return_findings(*env, *ret, scopes_view(scopes@), *value, span));
}

/// Checks a statement in a function returning `ret`; a `let` adds its binding to the
/// innermost scope.
pub fn check_statement(
    env: &Env,
    ret: &ReturnType,
    scopes: &mut Vec<Vec<(String, Binding)>>,
    statement: &Stmt,
    diagnostics: &mut Vec<Diagnostic>,
)
    requires
        old(scopes)@.len() > 0,
    ensures
        scopes_view(final(scopes)@) == let_effect(scopes_view(old(scopes)@), *statement),
        findings(final(diagnostics)@) == findings(old(diagnostics)@) + statement_spec(*env, *ret, scopes_view(old(scopes)@), *statement),
    decreases statement, 0int,
{
    let ghost before = findings(diagnostics@);
    let ghost s0 = scopes_view(scopes@);
    match &statement.kind {
        StmtKind::Let { name, ty, init } => {
            check_predefined(name.as_str(), "variable", statement.span, diagnostics);
            let a = require_value_as(env, scopes, init, ty, "variable initializer", diagnostics);
            match a {
                Some(actual) => {
                    if !same_type(&actual, ty) {
                        let declared = ty.name();
                        let found = actual.name();
                        let mut message = owned("variable `");
                        push_str(&mut message, name.as_str());
                        push_str(&mut message, "` has type `");
                        push_str(&mut message, declared.as_str());
                        push_str(&mut message, "`, but its initializer has type `");
                        push_str(&mut message, found.as_str());
                        push_str(&mut message, "`");
                        report(diagnostics, message, init.span);
                    }
                },
                None => {},
            }
            let ghost mid = findings(diagnostics@);
            match scopes.pop() {
                Some(mut innermost) => {
                    let duplicate = match find_latest(&innermost, name.as_str()) {
                        Some(_) => true,
                        None => false,
                    };
                    innermost.push((name.clone(), Binding { ty: ty.clone(), mutability: Mutability::Mutable }));
                    scopes.push(innermost);
                    assert(scopes_view(scopes@) =~= let_effect(s0, *statement));
                    if duplicate {
                        report(
                            diagnostics,
                            join3("variable `", name.as_str(), "` is declared more than once in this block"),
                            statement.span,
                        );
                    }
                },
                None => {},
            }
            assert(findings(diagnostics@) =~= before + statement_spec(*env, *ret, s0, *statement));
        },
        StmtKind::Assign { target, op, value } => {
            check_assign(env, scopes, target, *op, value, statement.span, diagnostics);
        },
        StmtKind::Expr(e) => {
            let _ = infer(env, scopes, e, diagnostics);
        },
        StmtKind::If { condition, then_block, else_block } => {
            check_bool(env, scopes, condition, "`if` condition", diagnostics);
            check_nested(env, ret, scopes, then_block, Vec::new(), diagnostics);
            match else_block {
                Some(b) => {
                    check_nested(env, ret, scopes, b, Vec::new(), diagnostics);
                },
                None => {},
            }
            assert(findings(diagnostics@) =~= before + statement_spec(*env, *ret, s0, *statement));
        },
        StmtKind::While { condition, body } => {
            check_bool(env, scopes, condition, "`while` condition", diagnostics);
            check_nested(env, ret, scopes, body, Vec::new(), diagnostics);
            assert(findings(diagnostics@) =~= before + statement_spec(*env, *ret, s0, *statement));
        },
        StmtKind::For { name, name_span, lower, upper, body } => {
            check_bound(env, scopes, lower, "range lower bound", diagnostics);
            check_bound(env, scopes, upper, "range upper bound", diagnostics);
            check_predefined(name.as_str(), "loop variable", *name_span, diagnostics);
            let mut first: Vec<(String, Binding)> = Vec::new();
            first.push((name.clone(), Binding { ty: ValueType::I32, mutability: Mutability::LoopVariable }));
            assert(first@ =~= seq![(*name, Binding { ty: ValueType::I32, mutability: Mutability::LoopVariable })]);
            check_nested(env, ret, scopes, body, first, diagnostics);
            assert(findings(diagnostics@) =~= before + statement_spec(*env, *ret, s0, *statement));
        },
        StmtKind::Return(value) => {
            check_return(env, ret, scopes, value, statement.span, diagnostics);
        },
    }
}

/// Checks a nested block in a scope of its own that starts with `first`.
fn check_nested(
    env: &Env,
    ret: &ReturnType,
    scopes: &mut Vec<Vec<(String, Binding)>>,
    block: &Vec<Stmt>,
    first: Vec<(String, Binding)>,
    diagnostics: &mut Vec<Diagnostic>,
)
    ensures
        scopes_view(final(scopes)@) == scopes_view(old(scopes)@),
        findings(final(diagnostics)@) == findings(old(diagnostics)@) + block_spec(*env, *ret, scopes_view(old(scopes)@).push(first@), block@),
    decreases block@, 1int,
{
    let ghost s0 = scopes_view(scopes@);
    let ghost inner = first@;
    scopes.push(first);
    assert(scopes_view(scopes@) =~= s0.push(inner));
    check_block(env, ret, scopes, block, diagnostics);
    proof {
        lemma_scopes_after_innermost(s0.push(inner), block@);
    }
    let _ = scopes.pop();
    assert(scopes_view(scopes@) =~= s0.push(inner).drop_last());
}

/// Checks the statements of a block in turn.
pub fn check_block(
    env: &Env,
    ret: &ReturnType,
    scopes: &mut Vec<Vec<(String, Binding)>>,
    block: &Vec<Stmt>,
    diagnostics: &mut Vec<Diagnostic>,
)
    requires
        old(scopes)@.len() > 0,
    ensures
        scopes_view(final(scopes)@) == scopes_after(scopes_view(old(scopes)@), block@),
        findings(final(diagnostics)@) == findings(old(diagnostics)@) + block_spec(*env, *ret, scopes_view(old(scopes)@), block@),
    decreases block@, 0int,
{
    let ghost s0 = scopes_view(scopes@);
    let mut k: usize = 0;
    while k < block.len()
        invariant
            k <= block@.len(),
            scopes@.len() > 0,
            s0.len() > 0,
            scopes_view(scopes@) == scopes_after(s0, block@.subrange(0, k as int)),
            findings(diagnostics@) == findings(old(diagnostics)@) + block_spec(*env, *ret, s0, block@.subrange(0, k as int)),
        decreases block.len() - k,
    {
        let ghost prefix = block@.subrange(0, k + 1);
        assert(prefix.subrange(0, prefix.len() - 1) == block@.subrange(0, k as int));
        assert(prefix[prefix.len() - 1] == block@[k as int]);
        assert(decreases_to!(block@ => block@[k as int]));
        check_statement(env, ret, scopes, &block[k], diagnostics);
        proof {
            lemma_scopes_after_innermost(s0, prefix);
        }
        assert(findings(diagnostics@) =~= findings(old(diagnostics)@) + block_spec(*env, *ret, s0, prefix));
        k += 1;
    }
    assert(block@.subrange(0, k as int) == block@);
}

// ---------------------------------------------------------------------------------------------
// Functions

/// Checks a function: its parameters, its return type, its body, and that it returns a value
/// on every path when it must.
pub fn check_function(env: &Env, function: &Function, diagnostics: &mut Vec<Diagnostic>)
    ensures
        findings(final(diagnostics)@) == findings(old(diagnostics)@) + function_spec(*env, *function),
{
    let ghost before = findings(diagnostics@);
    let params = &function.params;
    let mut k: usize = 0;
    while k < params.len()
        invariant
            k <= params@.len(),
            findings(diagnostics@) == before + param_array_findings(params@.subrange(0, k as int)),
        decreases params.len() - k,
    {
        let ghost prefix = params@.subrange(0, k + 1);
        assert(prefix.subrange(0, prefix.len() - 1) == params@.subrange(0, k as int));
        assert(prefix[prefix.len() - 1] == params@[k as int]);
        match &params[k].ty {
            ValueType::Array { .. } => {
                report(diagnostics, owned("arrays are not supported as function parameters yet"), params[k].span);
            },
            _ => {},
        }
        assert(findings(diagnostics@) =~= before + param_array_findings(prefix));
        k += 1;
    }
    assert(params@.subrange(0, k as int) == params@);
    let ghost after_arrays = findings(diagnostics@);
    match &function.return_type {
        ReturnType::Value(ValueType::Array { .. }) => {
            report(diagnostics, owned("arrays are not supported as function return types yet"), function.span);
        },
        _ => {},
    }
    let ghost after_return = findings(diagnostics@);
    let mut scope: Vec<(String, Binding)> = Vec::new();
    let mut k: usize = 0;
    while k < params.len()
        invariant
            k <= params@.len(),
            scope@ == params_scope(params@.subrange(0, k as int)),
            findings(diagnostics@) == after_return + param_findings(params@.subrange(0, k as int)),
        decreases params.len() - k,
    {
        let ghost prefix = params@.subrange(0, k + 1);
        assert(prefix.subrange(0, prefix.len() - 1) == params@.subrange(0, k as int));
        assert(prefix[prefix.len() - 1] == params@[k as int]);
        let param = &params[k];
        check_predefined(param.name.as_str(), "parameter", param.span, diagnostics);
        let duplicate = match find_latest(&scope, param.name.as_str()) {
            Some(_) => true,
            None => false,
        };
        scope.push((param.name.clone(), Binding { ty: param.ty.clone(), mutability: Mutability::Mutable }));
        assert(scope@ =~= params_scope(prefix));
        if duplicate {
            report(diagnostics, join3("parameter `", param.name.as_str(), "` is declared more than once"), param.span);
        }
        assert(findings(diagnostics@) =~= after_return + param_findings(prefix));
        k += 1;
    }
    assert(params@.subrange(0, k as int) == params@);
    let ghost after_params = findings(diagnostics@);
    let mut scopes: Vec<Vec<(String, Binding)>> = Vec::new();
    scopes.push(scope);
    assert(scopes_view(scopes@) =~= seq![params_scope(params@)]);
    check_block(env, &function.return_type, &mut scopes, &function.body, diagnostics);
    let ghost after_body = findings(diagnostics@);
    match function.return_type.value_type() {
        Some(_) => {
            if !block_returns(&function.body) {
                let name = function.return_type.name();
                let mut message = owned("function `");
                push_str(&mut message, function.name.as_str());
                push_str(&mut message, "` may finish without returning `");
                push_str(&mut message, name.as_str());
                push_str(&mut message, "`");
                report(diagnostics, message, function.span);
            }
        },
        None => {},
    }
    assert(findings(diagnostics@) =~= before + function_spec(*env, *function));
}

} // verus!
