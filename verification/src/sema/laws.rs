//! What holds of checking every program: numeric types never convert implicitly, constants and
//! loop variables are never assigned, each finding is reported exactly once, and resolution
//! leaves no written length behind and reports every length it gives up on.
use vstd::prelude::*;

use crate::ast::{AssignOp, BinaryOp, Expr, ReturnType, Stmt, ValueType, has_invalid_length};
use crate::diagnostic::Span;
use crate::ast::{Function, FunctionKind, Program};
use crate::checked::{analysis_findings, checks_clean, tables_of};
use crate::sema::bodies::functions_findings;
use crate::sema::declarations::{count_kind, declaration_findings, entry_finding, entry_findings, update_finding};
use crate::sema::lengths::{constant_kinds, integer_constants, resolution_findings, resolved_program};
use crate::sema::{struct_table, struct_types, direct_length_failure, length_failure, latest_indices, lemma_latest_indices, program_types};
use crate::ast::StructDecl;
use crate::sema::{block_returns_spec, first_occurrences};
use crate::sema::bodies::predefined_values_spec;
use crate::sema::declarations::predefined_names;
use crate::sema::evaluation::{
    complete_has_value, evaluation_findings, lemma_named_grows, undetermined_constants,
    constants_pass, definition, entry_typed, evaluation_ready, initial_state, lemma_named_budget,
    lemma_named_keeps_types, named, plain, type_of, typed_from, ConstValue, EvalState, Outcome, Phase, Visit,
};
use crate::sema::bodies::{invalid_constant, invalid_constant_name, invalid_global};
use crate::parser::lengths_unresolved_only;
use crate::sema::evaluation::{initial_values_of, InitialValues};
use crate::sema::declarations::{constant_init_findings, global_init_findings, resolution_fails};
use crate::sema::compile_time_findings;
use crate::sema::evaluation::{globals_pass, typed};
use crate::ast::Global;
use crate::sema::typing::{lookup_value, same};
use crate::keyboard::KEY_COUNT;
use crate::ast::{Constant, ExprKind};
use crate::sema::lengths::{length_resolution, type_resolution};
use crate::sema::typing::{
    assign_spec, binary_outcome, constant_assign_message, infer_spec, lvalue_spec, one, require_value_as_spec,
    function_spec, statement_spec, Binding, Env, Mutability, Signature,
};

verus! {

// ---------------------------------------------------------------------------------------------
// Numeric types do not convert implicitly

/// An operator other than `&&` and `||` with one `i32` and one `f32` operand has no type, and
/// checking it reports a finding.
pub proof fn lemma_operators_never_mix_numeric_types(op: BinaryOp, span: Span)
    requires
        !(op is LogicalAnd || op is LogicalOr),
    ensures
        binary_outcome(op, ValueType::I32, ValueType::F32, span).0 is None,
        binary_outcome(op, ValueType::I32, ValueType::F32, span).1.len() == 1,
        binary_outcome(op, ValueType::F32, ValueType::I32, span).0 is None,
        binary_outcome(op, ValueType::F32, ValueType::I32, span).1.len() == 1,
{
}

/// A `let` whose initializer (not an array literal) has a value type other than the declared
/// one, where the declared type's lengths all resolved, is reported: the value is never
/// converted to the declared type.
pub proof fn lemma_let_never_converts(env: Env, ret: ReturnType, scopes: Seq<Seq<(String, Binding)>>, statement: Stmt)
    requires
        statement.kind is Let,
        !has_invalid_length(statement.kind->Let_ty),
        !(statement.kind->Let_init.kind is ArrayLiteral),
        infer_spec(env, scopes, statement.kind->Let_init).0 is Some,
        infer_spec(env, scopes, statement.kind->Let_init).0->Some_0 is Value,
        crate::sema::typing::type_view(infer_spec(env, scopes, statement.kind->Let_init).0->Some_0->Value_0)
            != crate::sema::typing::type_view(statement.kind->Let_ty),
    ensures
        exists|k: int|
            0 <= k < statement_spec(env, ret, scopes, statement).len()
                && (#[trigger] statement_spec(env, ret, scopes, statement)[k]).1 == statement.kind->Let_init.span,
{
    let ty = statement.kind->Let_ty;
    let init = statement.kind->Let_init;
    let (a, f) = require_value_as_spec(env, scopes, init, ty, "variable initializer"@);
    let found = statement_spec(env, ret, scopes, statement);
    let before = crate::sema::typing::predefined_findings(statement.kind->Let_name@, "variable"@, statement.span) + f;
    assert(a is Some);
    assert(found[before.len() as int].1 == init.span);
}

// ---------------------------------------------------------------------------------------------
// Constants and loop variables are never assigned

/// An assignment whose target is a constant, or part of one, is reported at the statement.
pub proof fn lemma_constants_are_immutable(
    env: Env,
    scopes: Seq<Seq<(String, Binding)>>,
    target: Expr,
    op: AssignOp,
    value: Expr,
    span: Span,
)
    requires
        lvalue_spec(env, scopes, target).0 matches Some((_, Mutability::Constant, _)),
    ensures
        ({
            let root = lvalue_spec(env, scopes, target).0->Some_0.2;
            let message = constant_assign_message(op is Assign, target.kind is Variable, root);
            assign_spec(env, scopes, target, op, value, span).last() == (message, span)
        }),
{
}

/// An assignment to a loop variable, or to part of one, is reported at the statement.
pub proof fn lemma_loop_variables_are_read_only(
    env: Env,
    scopes: Seq<Seq<(String, Binding)>>,
    target: Expr,
    op: AssignOp,
    value: Expr,
    span: Span,
)
    requires
        lvalue_spec(env, scopes, target).0 matches Some((_, Mutability::LoopVariable, _)),
    ensures
        ({
            let root = lvalue_spec(env, scopes, target).0->Some_0.2;
            assign_spec(env, scopes, target, op, value, span).last() == ("loop variable `"@ + root + "` is read-only"@, span)
        }),
{
}

// ---------------------------------------------------------------------------------------------
// Each finding is reported exactly once

/// What deduplication keeps has no repeats.
pub proof fn lemma_reported_once<T>(s: Seq<T>)
    ensures
        forall|i: int, j: int|
            0 <= i < j < first_occurrences(s).len() ==> first_occurrences(s)[i] != first_occurrences(s)[j],
    decreases s.len(),
{
    if s.len() > 0 {
        let t = s.drop_last();
        lemma_reported_once(t);
        if !t.contains(s.last()) {
            let k = first_occurrences(t);
            crate::sema::lemma_first_occurrences_contains(t, s.last());
            assert forall|i: int, j: int| 0 <= i < j < k.push(s.last()).len() implies k.push(s.last())[i] != k.push(
                s.last(),
            )[j] by {
                if j == k.len() {
                    assert(k.contains(k[i]));
                }
            }
        }
    }
}

/// Every finding is reported, and only findings are: deduplication keeps exactly what occurs.
pub proof fn lemma_reported_completely<T>(s: Seq<T>, x: T)
    ensures
        first_occurrences(s).contains(x) <==> s.contains(x),
{
    crate::sema::lemma_first_occurrences_contains(s, x);
}

// ---------------------------------------------------------------------------------------------
// Resolution

/// Whether every length in a type is resolved or invalid: none is still written as a literal
/// or a constant's name.
pub open spec fn lengths_settled(ty: ValueType) -> bool
    decreases ty,
{
    match ty {
        ValueType::Array { element, length } => (length is Resolved || length is Invalid) && lengths_settled(*element),
        _ => true,
    }
}

/// Resolution leaves no length written as a literal or a constant's name.
pub proof fn lemma_resolution_settles_lengths(k: Seq<(Seq<char>, bool)>, v: Seq<(Seq<char>, i32)>, ty: ValueType)
    ensures
        lengths_settled(type_resolution(k, v, ty).0),
    decreases ty,
{
    match ty {
        ValueType::Array { element, length } => {
            lemma_resolution_settles_lengths(k, v, *element);
        },
        _ => {},
    }
}

/// A type without invalid lengths comes out of resolution with one only where resolution
/// reported something.
pub proof fn lemma_given_up_lengths_are_reported(k: Seq<(Seq<char>, bool)>, v: Seq<(Seq<char>, i32)>, ty: ValueType)
    requires
        !has_invalid_length(ty),
        has_invalid_length(type_resolution(k, v, ty).0),
    ensures
        type_resolution(k, v, ty).1.len() > 0,
    decreases ty,
{
    match ty {
        ValueType::Array { element, length } => {
            let (e, ef) = type_resolution(k, v, *element);
            let (l, lf) = length_resolution(k, v, length);
            if has_invalid_length(e) {
                lemma_given_up_lengths_are_reported(k, v, *element);
            }
        },
        _ => {},
    }
}

// ---------------------------------------------------------------------------------------------
// What every checked game is

proof fn lemma_no_function_findings(env: Env, fs: Seq<Function>)
    requires
        functions_findings(env, fs).len() == 0,
    ensures
        forall|i: int| 0 <= i < fs.len() ==> (#[trigger] function_spec(env, fs[i])).len() == 0,
        forall|i: int| 0 <= i < fs.len() ==> (#[trigger] update_finding(fs[i])).len() == 0,
    decreases fs.len(),
{
    if fs.len() > 0 {
        let earlier = fs.subrange(0, fs.len() - 1);
        lemma_no_function_findings(env, earlier);
        assert forall|i: int| 0 <= i < fs.len() implies (#[trigger] function_spec(env, fs[i])).len() == 0 by {
            if i < fs.len() - 1 {
                assert(earlier[i] == fs[i]);
            }
        }
        assert forall|i: int| 0 <= i < fs.len() implies (#[trigger] update_finding(fs[i])).len() == 0 by {
            if i < fs.len() - 1 {
                assert(earlier[i] == fs[i]);
            }
        }
    }
}

/// The findings of checking a program for which `checks_clean` holds are all empty: its
/// declarations' and its function bodies', with the tables it was checked with.
proof fn lemma_clean_parts(program: Program) -> (bodies: Env<'static>)
    requires
        checks_clean(program),
    ensures
        declaration_findings(program).len() == 0,
        evaluation_findings(program).len() == 0,
        functions_findings(bodies, program.functions@).len() == 0,
{
    let (parsed, functions, constants, predefined, evaluated) = choose|
        parsed: Program,
        functions: Vec<(String, Signature)>,
        constants: Vec<(String, ValueType)>,
        predefined: Vec<(String, i32)>,
        evaluated: Vec<(String, i32)>,
    |
        #![trigger analysis_findings(parsed, program, functions, constants, predefined, evaluated)]
        lengths_unresolved_only(parsed) && resolved_program(constant_kinds(parsed.constants@), integer_constants(parsed.constants@), parsed, program)
            && tables_of(program, functions, constants, predefined, evaluated) && analysis_findings(
            parsed,
            program,
            functions,
            constants,
            predefined,
            evaluated,
        ) == Seq::<(Seq<char>, Span)>::empty();
    let all = analysis_findings(parsed, program, functions, constants, predefined, evaluated);
    assert(all.len() == 0);
    let bodies = Env {
        globals: &program.globals,
        constants: &constants,
        structs: &program.structs,
        functions: &functions,
        values: &evaluated,
    };
    bodies
}

/// Every game that checks has exactly one `start`, one `update` and one `draw`, and its
/// `update` takes exactly one `f32`.
pub proof fn lemma_checked_games_have_their_entry_points(program: Program)
    requires
        checks_clean(program),
    ensures
        count_kind(program.functions@, FunctionKind::Start) == 1,
        count_kind(program.functions@, FunctionKind::Update) == 1,
        count_kind(program.functions@, FunctionKind::Draw) == 1,
        forall|i: int|
            0 <= i < program.functions@.len() && (#[trigger] program.functions@[i]).kind == FunctionKind::Update
                ==> program.functions@[i].params@.len() == 1 && program.functions@[i].params@[0].ty == ValueType::F32,
{
    let bodies = lemma_clean_parts(program);
    lemma_no_function_findings(bodies, program.functions@);
    assert(entry_findings(program).len() == 0);
    assert(entry_finding(program, FunctionKind::Start, "start"@).len() == 0);
    assert(entry_finding(program, FunctionKind::Update, "update"@).len() == 0);
    assert(entry_finding(program, FunctionKind::Draw, "draw"@).len() == 0);
    assert forall|i: int|
        0 <= i < program.functions@.len() && (#[trigger] program.functions@[i]).kind == FunctionKind::Update
            implies program.functions@[i].params@.len() == 1 && program.functions@[i].params@[0].ty == ValueType::F32 by {
        assert(update_finding(program.functions@[i]).len() == 0);
    }
}

/// In every game that checks, each function that returns a value returns on every path.
pub proof fn lemma_checked_functions_return_their_values(program: Program)
    requires
        checks_clean(program),
    ensures
        forall|i: int|
            0 <= i < program.functions@.len() && (#[trigger] program.functions@[i]).return_type is Value
                ==> block_returns_spec(program.functions@[i].body@),
{
    let bodies = lemma_clean_parts(program);
    lemma_no_function_findings(bodies, program.functions@);
    assert forall|i: int|
        0 <= i < program.functions@.len() && (#[trigger] program.functions@[i]).return_type is Value implies block_returns_spec(
        program.functions@[i].body@,
    ) by {
        assert(function_spec(bodies, program.functions@[i]).len() == 0);
    }
}

// ---------------------------------------------------------------------------------------------
// Compile-time evaluation

proof fn lemma_pass_keeps_types(p: Program, cs: Seq<Constant>)
    ensures
        typed_from(p, constants_pass(p, cs).0.values, (KEY_COUNT + 2) as int),
    decreases cs.len(),
{
    if cs.len() == 0 {
        let vs = initial_state().values;
        assert forall|i: int| 0 <= i < (KEY_COUNT + 2) as int implies predefined_names().contains(#[trigger] vs[i].0) by {
            assert(vs[i].0 == predefined_values_spec()[i].0);
            assert(predefined_names()[i] == vs[i].0);
        }
    } else {
        lemma_pass_keeps_types(p, cs.drop_last());
        let (st, f) = constants_pass(p, cs.drop_last());
        let c = cs.last();
        if !(invalid_constant_name(p, c.name@) || lookup_value(st.visits, c.name@) == Some(Visit::Failed)) {
            lemma_named_keeps_types(p, st, p.constants@.len() as nat, c.name, (KEY_COUNT + 2) as int);
        }
    }
}

/// The position of the entry that looking `name` up finds.
proof fn lemma_lookup_entry<T>(values: Seq<(Seq<char>, T)>, name: Seq<char>) -> (i: int)
    ensures
        lookup_value(values, name) is Some ==> 0 <= i < values.len() && values[i] == (
            name,
            lookup_value(values, name)->0,
        ),
    decreases values.len(),
{
    if values.len() == 0 {
        0
    } else if values.last().0 == name {
        values.len() - 1
    } else {
        let i = lemma_lookup_entry(values.drop_last(), name);
        if lookup_value(values, name) is Some {
            assert(values[i] == values.drop_last()[i]);
        }
        i
    }
}

/// Every value that evaluating a program's constants gives a name other than a predefined
/// constant's has the declared type of the latest constant of that name.
pub proof fn lemma_constant_values_have_their_declared_types(p: Program, name: Seq<char>)
    requires
        !predefined_names().contains(name),
    ensures
        match lookup_value(constants_pass(p, p.constants@).0.values, name) {
            Some(v) => match definition(p.constants@, name) {
                Some(c) => same(type_of(v), c.ty),
                None => false,
            },
            None => true,
        },
{
    lemma_pass_keeps_types(p, p.constants@);
    let values = constants_pass(p, p.constants@).0.values;
    let i = lemma_lookup_entry(values, name);
    if lookup_value(values, name) is Some {
        if i < (KEY_COUNT + 2) as int {
            assert(predefined_names().contains(values[i].0));
        } else {
            assert(entry_typed(p, values[i]));
        }
    }
}

/// `false && right` is false and `true || right` is true without `right` being evaluated:
/// whatever `right` is, evaluating it neither reports anything nor changes what was found.
pub proof fn lemma_logical_operators_short_circuit(
    p: Program,
    st: EvalState,
    budget: nat,
    e: Expr,
    at: Span,
    phase: Phase,
)
    requires
        e.kind matches ExprKind::Binary { left, op, .. } && (op == BinaryOp::LogicalAnd || op == BinaryOp::LogicalOr)
            && plain(p, st, budget, *left, at, phase).1 == Outcome::Value(ConstValue::Bool(op == BinaryOp::LogicalOr)),
    ensures
        e.kind matches ExprKind::Binary { left, op, .. } && plain(p, st, budget, e, at, phase) == (
            plain(p, st, budget, *left, at, phase).0,
            Outcome::Value(ConstValue::Bool(op == BinaryOp::LogicalOr)),
        ),
{
}

/// Evaluating a constant on demand never runs out of depth: from a state with nothing under
/// evaluation, a budget of as many constants as the program declares gives the outcome that any
/// larger budget gives.
pub proof fn lemma_evaluation_depth_suffices(p: Program, st: EvalState, name: String, extra: nat)
    requires
        st.stack.len() == 0,
    ensures
        named(p, st, p.constants@.len() as nat, name) == named(p, st, (p.constants@.len() + extra) as nat, name),
    decreases extra,
{
    if extra > 0 {
        lemma_evaluation_depth_suffices(p, st, name, (extra - 1) as nat);
        let b = (p.constants@.len() + extra - 1) as nat;
        assert(evaluation_ready(p, st, b));
        lemma_named_budget(p, st, b, name);
    }
}

/// Each constant of a program is evaluated with nothing else under evaluation.
pub proof fn lemma_constants_start_from_an_empty_stack(p: Program, cs: Seq<Constant>)
    ensures
        constants_pass(p, cs).0.stack.len() == 0,
    decreases cs.len(),
{
    if cs.len() > 0 {
        lemma_constants_start_from_an_empty_stack(p, cs.drop_last());
        let (st, f) = constants_pass(p, cs.drop_last());
        let c = cs.last();
        if !(invalid_constant_name(p, c.name@) || lookup_value(st.visits, c.name@) == Some(Visit::Failed)) {
            assert(evaluation_ready(p, st, p.constants@.len() as nat));
            lemma_named_budget(p, st, p.constants@.len() as nat, c.name);
        }
    }
}

/// Whether a constant's evaluation settled: it gave a value, or it was left undetermined.
pub open spec fn settled(st: EvalState, name: Seq<char>) -> bool {
    lookup_value(st.values, name) is Some || lookup_value(st.visits, name) == Some(Visit::Undetermined)
}

proof fn lemma_definition_some(cs: Seq<Constant>, i: int)
    requires
        0 <= i < cs.len(),
    ensures
        definition(cs, cs[i].name@) is Some,
    decreases cs.len(),
{
    if cs.last().name@ != cs[i].name@ {
        assert(i < cs.len() - 1);
        assert(cs.drop_last()[i] == cs[i]);
        lemma_definition_some(cs.drop_last(), i);
    }
}

/// When evaluating constants one after another reports nothing, no evaluation failed, every
/// completed constant has its value, and every constant with a valid declaration gave a value
/// or was left undetermined.
pub proof fn lemma_clean_constants_settle(p: Program, cs: Seq<Constant>)
    requires
        constants_pass(p, cs).1.len() == 0,
        forall|i: int| 0 <= i < cs.len() ==> definition(p.constants@, #[trigger] cs[i].name@) is Some,
    ensures
        complete_has_value(constants_pass(p, cs).0),
        forall|x: Seq<char>| #[trigger] lookup_value(constants_pass(p, cs).0.visits, x) != Some(Visit::Failed),
        forall|i: int|
            0 <= i < cs.len() && !invalid_constant_name(p, cs[i].name@) ==> settled(
                constants_pass(p, cs).0,
                #[trigger] cs[i].name@,
            ),
    decreases cs.len(),
{
    if cs.len() == 0 {
        assert(initial_state().visits.len() == 0);
    } else {
        let rest = cs.drop_last();
        let (st, f) = constants_pass(p, rest);
        assert(f.len() == 0);
        assert forall|i: int| 0 <= i < rest.len() implies definition(p.constants@, #[trigger] rest[i].name@) is Some by {
            assert(rest[i] == cs[i]);
        }
        lemma_clean_constants_settle(p, rest);
        lemma_constants_start_from_an_empty_stack(p, rest);
        let c = cs.last();
        assert(cs[cs.len() - 1] == c);
        if invalid_constant_name(p, c.name@) || lookup_value(st.visits, c.name@) == Some(Visit::Failed) {
            assert forall|i: int| 0 <= i < cs.len() && !invalid_constant_name(p, cs[i].name@) implies settled(
                st,
                #[trigger] cs[i].name@,
            ) by {
                if i < cs.len() - 1 {
                    assert(rest[i] == cs[i]);
                }
            }
        } else {
            let n = p.constants@.len() as nat;
            assert(evaluation_ready(p, st, n));
            lemma_named_budget(p, st, n, c.name);
            lemma_named_grows(p, st, n, c.name);
            let (after, r) = named(p, st, n, c.name);
            assert(!(r is Error));
            assert(settled(after, c.name@)) by {
                if lookup_value(st.values, c.name@) is None {
                    assert(definition(p.constants@, c.name@) is Some);
                    assert(lookup_value(st.visits, c.name@) != Some(Visit::Complete));
                    if lookup_value(st.visits, c.name@) is None {
                        assert(n > 0);
                        let d = definition(p.constants@, c.name@).unwrap();
                        let entered = EvalState {
                            values: st.values,
                            visits: st.visits.push((c.name@, Visit::Visiting)),
                            stack: st.stack.push(c.name@),
                        };
                        let (a2, r2) = crate::sema::evaluation::typed(
                            p,
                            entered,
                            (n - 1) as nat,
                            d.init,
                            d.ty,
                            Phase::Constants,
                        );
                        let checked = crate::sema::evaluation::declared(d, r2);
                        assert(after == crate::sema::evaluation::finished(a2, c.name@, checked));
                        match checked {
                            Outcome::Value(v) => {
                                assert(after.values.last() == (c.name@, v));
                            },
                            Outcome::Unknown => {
                                assert(after.visits.last() == (c.name@, Visit::Undetermined));
                            },
                            _ => {},
                        }
                    }
                }
            }
            assert forall|i: int| 0 <= i < cs.len() && !invalid_constant_name(p, cs[i].name@) implies settled(
                after,
                #[trigger] cs[i].name@,
            ) by {
                if i < cs.len() - 1 {
                    assert(rest[i] == cs[i]);
                    assert(settled(st, cs[i].name@));
                    if lookup_value(st.values, cs[i].name@) is Some {
                        assert(lookup_value(after.values, cs[i].name@) is Some);
                    } else {
                        assert(lookup_value(st.visits, cs[i].name@) is Some);
                        assert(lookup_value(after.visits, cs[i].name@) == lookup_value(st.visits, cs[i].name@));
                    }
                }
            }
        }
    }
}

/// A program whose constants' and globals' evaluation reports nothing leaves each constant with
/// a valid declaration either with a value or listed among the undetermined constants, and
/// each global that can be evaluated without an error.
pub proof fn lemma_checked_constants_have_values(p: Program)
    requires
        evaluation_findings(p).len() == 0,
    ensures
        forall|i: int|
            0 <= i < p.constants@.len() && !invalid_constant_name(p, p.constants@[i].name@) ==> lookup_value(
                constants_pass(p, p.constants@).0.values,
                #[trigger] p.constants@[i].name@,
            ) is Some || undetermined_constants(constants_pass(p, p.constants@).0, p.constants@).contains(
                p.constants@[i].name@,
            ),
{
    let cs = p.constants@;
    let (st, f) = constants_pass(p, cs);
    assert(f.len() == 0);
    assert forall|i: int| 0 <= i < cs.len() implies definition(p.constants@, #[trigger] cs[i].name@) is Some by {
        lemma_definition_some(cs, i);
    }
    lemma_clean_constants_settle(p, cs);
    assert forall|i: int|
        0 <= i < cs.len() && !invalid_constant_name(p, cs[i].name@) && lookup_value(st.values, #[trigger] cs[i].name@)
            is None implies undetermined_constants(st, cs).contains(cs[i].name@) by {
        assert(lookup_value(st.visits, cs[i].name@) == Some(Visit::Undetermined));
        lemma_undetermined_listed(st, cs, i);
    }
}

proof fn lemma_undetermined_listed(st: EvalState, cs: Seq<Constant>, i: int)
    requires
        0 <= i < cs.len(),
        lookup_value(st.visits, cs[i].name@) == Some(Visit::Undetermined),
    ensures
        undetermined_constants(st, cs).contains(cs[i].name@),
    decreases cs.len(),
{
    let u = undetermined_constants(st, cs);
    if i == cs.len() - 1 {
        assert(u.last() == cs[i].name@);
        assert(u[u.len() - 1] == cs[i].name@);
    } else {
        assert(cs.drop_last()[i] == cs[i]);
        lemma_undetermined_listed(st, cs.drop_last(), i);
        let earlier = undetermined_constants(st, cs.drop_last());
        let j = choose|j: int| 0 <= j < earlier.len() && earlier[j] == cs[i].name@;
        if u != earlier {
            assert(u == earlier.push(cs.last().name@));
            assert(u[j] == earlier[j]);
        }
    }
}

proof fn lemma_clean_globals(p: Program, st: EvalState, gs: Seq<Global>, i: int)
    requires
        globals_pass(p, st, gs).len() == 0,
        0 <= i < gs.len(),
        !invalid_global(p, gs[i]),
    ensures
        !(typed(p, st, 0, gs[i].init, gs[i].ty, Phase::Globals).1 is Error),
    decreases gs.len(),
{
    if i < gs.len() - 1 {
        assert(gs.drop_last()[i] == gs[i]);
        lemma_clean_globals(p, st, gs.drop_last(), i);
    }
}

proof fn lemma_clean_constant_inits(cs: Seq<Constant>, globals: Seq<Global>, i: int)
    requires
        constant_init_findings(cs, globals).len() == 0,
        0 <= i < cs.len(),
    ensures
        compile_time_findings(cs[i].init, globals, "constant expressions"@).len() == 0,
    decreases cs.len(),
{
    if i < cs.len() - 1 {
        assert(cs.drop_last()[i] == cs[i]);
        lemma_clean_constant_inits(cs.drop_last(), globals, i);
    }
}

proof fn lemma_clean_types(
    k: Seq<(Seq<char>, bool)>,
    v: Seq<(Seq<char>, i32)>,
    types: Seq<(ValueType, Span)>,
    j: int,
)
    requires
        resolution_findings(k, v, types).len() == 0,
        0 <= j < types.len(),
    ensures
        type_resolution(k, v, types[j].0).1.len() == 0,
    decreases types.len(),
{
    if j < types.len() - 1 {
        assert(types.subrange(0, types.len() - 1)[j] == types[j]);
        lemma_clean_types(k, v, types.subrange(0, types.len() - 1), j);
    }
}

proof fn lemma_struct_types_hold(structs: Seq<StructDecl>, i: int, f: int) -> (j: int)
    requires
        0 <= i < structs.len(),
        0 <= f < structs[i].fields@.len(),
    ensures
        0 <= j < struct_types(structs).len(),
        struct_types(structs)[j] == (structs[i].fields@[f].ty, structs[i].fields@[f].span),
    decreases structs.len(),
{
    let earlier = struct_types(structs.drop_last());
    if i == structs.len() - 1 {
        earlier.len() + f
    } else {
        assert(structs.drop_last()[i] == structs[i]);
        lemma_struct_types_hold(structs.drop_last(), i, f)
    }
}

/// A type written without invalid lengths whose resolution gave up on one reported it.
proof fn lemma_resolved_type_valid(
    k: Seq<(Seq<char>, bool)>,
    v: Seq<(Seq<char>, i32)>,
    types: Seq<(ValueType, Span)>,
    j: int,
)
    requires
        resolution_findings(k, v, types).len() == 0,
        0 <= j < types.len(),
        !has_invalid_length(types[j].0),
    ensures
        !has_invalid_length(type_resolution(k, v, types[j].0).0),
{
    lemma_clean_types(k, v, types, j);
    if has_invalid_length(type_resolution(k, v, types[j].0).0) {
        lemma_given_up_lengths_are_reported(k, v, types[j].0);
    }
}

/// In every game that checks, every array length in its struct fields, constants and globals
/// resolved, so no constant or global is kept from evaluation by its type.
pub proof fn lemma_checked_games_resolve_their_lengths(program: Program)
    requires
        checks_clean(program),
    ensures
        forall|i: int| 0 <= i < program.constants@.len() ==> !resolution_fails(#[trigger] program.constants@[i].ty, program.structs@),
        forall|i: int| 0 <= i < program.globals@.len() ==> !resolution_fails(#[trigger] program.globals@[i].ty, program.structs@),
{
    let (parsed, functions, constants, predefined, evaluated) = choose|
        parsed: Program,
        functions: Vec<(String, Signature)>,
        constants: Vec<(String, ValueType)>,
        predefined: Vec<(String, i32)>,
        evaluated: Vec<(String, i32)>,
    |
        #![trigger analysis_findings(parsed, program, functions, constants, predefined, evaluated)]
        lengths_unresolved_only(parsed) && resolved_program(constant_kinds(parsed.constants@), integer_constants(parsed.constants@), parsed, program)
            && tables_of(program, functions, constants, predefined, evaluated) && analysis_findings(
            parsed,
            program,
            functions,
            constants,
            predefined,
            evaluated,
        ) == Seq::<(Seq<char>, Span)>::empty();
    let k = constant_kinds(parsed.constants@);
    let v = integer_constants(parsed.constants@);
    let types = program_types(parsed);
    assert(analysis_findings(parsed, program, functions, constants, predefined, evaluated).len() == 0);
    assert(resolution_findings(k, v, types).len() == 0);
    let a = struct_types(parsed.structs@);
    let b = parsed.constants@.map_values(|c: Constant| (c.ty, c.span));
    let c = parsed.globals@.map_values(|g: Global| (g.ty, g.span));
    assert(types == a + b + c + crate::sema::functions_types(parsed.functions@));
    // Struct fields of the resolved program have no invalid length.
    assert forall|i: int, f: int|
        0 <= i < program.structs@.len() && 0 <= f < program.structs@[i].fields@.len() implies !has_invalid_length(
            #[trigger] program.structs@[i].fields@[f].ty,
        ) by {
        let j = lemma_struct_types_hold(parsed.structs@, i, f);
        assert(types[j] == a[j]);
        lemma_resolved_type_valid(k, v, types, j);
        assert(program.structs@[i].fields@[f].ty == type_resolution(k, v, parsed.structs@[i].fields@[f].ty).0);
    }
    let table = struct_table(program.structs@);
    lemma_latest_indices(program.structs@, program.structs@.len() as int);
    assert forall|j: int| 0 <= j < table.len() implies !#[trigger] direct_length_failure(table, j) by {
        let m = latest_indices(program.structs@, program.structs@.len() as int)[j];
        assert(table[j] == program.structs@[m]);
        if direct_length_failure(table, j) {
            let f = choose|f: int| 0 <= f < table[j].fields@.len() && has_invalid_length(#[trigger] table[j].fields@[f].ty);
            assert(!has_invalid_length(program.structs@[m].fields@[f].ty));
        }
    }
    assert forall|j: int| 0 <= j < table.len() implies !#[trigger] length_failure(table, j) by {
        if length_failure(table, j) {
            if !direct_length_failure(table, j) {
                let l = choose|l: int|
                    0 <= l < table.len() && crate::graph::reaches(crate::sema::dependency_graph(table), j, l)
                        && #[trigger] direct_length_failure(table, l);
            }
        }
    }
    assert forall|i: int| 0 <= i < program.constants@.len() implies !resolution_fails(
        #[trigger] program.constants@[i].ty,
        program.structs@,
    ) by {
        let j = a.len() + i;
        assert(types[j] == b[i]);
        lemma_resolved_type_valid(k, v, types, j);
    }
    assert forall|i: int| 0 <= i < program.globals@.len() implies !resolution_fails(
        #[trigger] program.globals@[i].ty,
        program.structs@,
    ) by {
        let j = a.len() + b.len() + i;
        assert(types[j] == c[i]);
        lemma_resolved_type_valid(k, v, types, j);
    }
}

proof fn lemma_clean_global_inits(gs: Seq<Global>, globals: Seq<Global>, decls: Seq<StructDecl>, i: int)
    requires
        global_init_findings(gs, globals, decls).len() == 0,
        0 <= i < gs.len(),
        !resolution_fails(gs[i].ty, decls),
    ensures
        compile_time_findings(gs[i].init, globals, "global initializers"@).len() == 0,
    decreases gs.len(),
{
    if i < gs.len() - 1 {
        assert(gs.drop_last()[i] == gs[i]);
        lemma_clean_global_inits(gs.drop_last(), globals, decls, i);
    }
}

/// In every game that checks, every constant has a value, or is listed among the constants
/// left undetermined because their values rest on `f32` arithmetic; and every global's
/// initializer is evaluated and gives a value or is left undetermined, never an error.
pub proof fn lemma_checked_games_settle_their_initializers(program: Program)
    requires
        checks_clean(program),
    ensures
        forall|i: int|
            0 <= i < program.constants@.len() ==> lookup_value(
                constants_pass(program, program.constants@).0.values,
                #[trigger] program.constants@[i].name@,
            ) is Some || undetermined_constants(constants_pass(program, program.constants@).0, program.constants@).contains(
                program.constants@[i].name@,
            ),
        forall|i: int| 0 <= i < program.globals@.len() ==> !invalid_global(program, #[trigger] program.globals@[i]),
        forall|i: int|
            0 <= i < program.globals@.len() ==> !(typed(
                program,
                constants_pass(program, program.constants@).0,
                0,
                #[trigger] program.globals@[i].init,
                program.globals@[i].ty,
                Phase::Globals,
            ).1 is Error),
{
    lemma_clean_parts(program);
    lemma_checked_games_resolve_their_lengths(program);
    let cs = program.constants@;
    assert(constant_init_findings(cs, program.globals@).len() == 0);
    assert(global_init_findings(program.globals@, program.globals@, program.structs@).len() == 0);
    assert forall|i: int| 0 <= i < cs.len() implies !invalid_constant(program, #[trigger] cs[i]) by {
        lemma_clean_constant_inits(cs, program.globals@, i);
    }
    assert forall|name: Seq<char>| !#[trigger] invalid_constant_name(program, name) by {
        if invalid_constant_name(program, name) {
            let j = choose|j: int|
                0 <= j < program.constants@.len() && j < program.constants@.len() && (#[trigger] program.constants@[j]).name@
                    == name && invalid_constant(program, program.constants@[j]);
            assert(!invalid_constant(program, cs[j]));
        }
    }
    lemma_checked_constants_have_values(program);
    assert forall|i: int| 0 <= i < program.globals@.len() implies !invalid_global(program, #[trigger] program.globals@[i]) by {
        lemma_clean_global_inits(program.globals@, program.globals@, program.structs@, i);
    }
    let st = constants_pass(program, program.constants@).0;
    assert(globals_pass(program, st, program.globals@).len() == 0);
    assert forall|i: int| 0 <= i < program.globals@.len() implies !(typed(
        program,
        st,
        0,
        #[trigger] program.globals@[i].init,
        program.globals@[i].ty,
        Phase::Globals,
    ).1 is Error) by {
        lemma_clean_globals(program, st, program.globals@, i);
    }
}

/// The values that checking a game gives: a value for every constant except those listed as
/// resting on `f32` arithmetic.
pub proof fn lemma_checked_values_are_set(program: Program, values: InitialValues)
    requires
        checks_clean(program),
        initial_values_of(program, values),
    ensures
        forall|i: int|
            0 <= i < values.constants@.len() ==> #[trigger] values.constants@[i] is Some || undetermined_constants(
                constants_pass(program, program.constants@).0,
                program.constants@,
            ).contains(program.constants@[i].name@),
{
    lemma_checked_games_settle_their_initializers(program);
    assert forall|i: int| 0 <= i < values.constants@.len() implies #[trigger] values.constants@[i] is Some
        || undetermined_constants(constants_pass(program, program.constants@).0, program.constants@).contains(
        program.constants@[i].name@,
    ) by {
        assert(values.constants@[i] == lookup_value(
            constants_pass(program, program.constants@).0.values,
            program.constants@[i].name@,
        ));
    }
}

} // verus!
