//! Resolving array lengths: literal lengths and lengths named by integer constants become
//! concrete, or invalid with a diagnostic.
use vstd::prelude::*;

use crate::ast::{ArrayLength, Constant, Function, Global, Param, Program, ReturnType, Stmt, StmtKind, StructDecl, StructField, ValueType};

use crate::diagnostic::{Diagnostic, Span};
use crate::sema::bodies::{predefined_values, predefined_values_spec};
use crate::sema::inference::{constant_int, find_latest, join3, report};
use crate::sema::typing::{const_int, lemma_lookup_named, lookup_value, named_values, one, Findings};
use crate::sema::{
    block_types, field_types, findings, function_types, functions_types, nonpositive_length_message, positive_array_length,
    program_types, returned_types, statement_types, struct_types,
};

verus! {

// ---------------------------------------------------------------------------------------------
// Integer constants

/// One pass over the constants `cs[0..i]`, in declaration order: each constant of type `i32`
/// that has no value yet among `values` gets one where integer arithmetic over the values found
/// so far evaluates its initializer.
pub open spec fn evaluation_pass(cs: Seq<Constant>, values: Seq<(Seq<char>, i32)>, i: int) -> Seq<(Seq<char>, i32)>
    decreases i,
{
    if i <= 0 || i > cs.len() {
        values
    } else {
        let earlier = evaluation_pass(cs, values, i - 1);
        let c = cs[i - 1];
        if c.ty is I32 && lookup_value(earlier, c.name@) is None {
            match const_int(earlier, c.init) {
                Some(v) => earlier.push((c.name@, v)),
                None => earlier,
            }
        } else {
            earlier
        }
    }
}

/// `rounds` passes over all the constants, starting from `values`.
pub open spec fn evaluation_passes(cs: Seq<Constant>, values: Seq<(Seq<char>, i32)>, rounds: nat) -> Seq<(Seq<char>, i32)>
    decreases rounds,
{
    if rounds == 0 {
        values
    } else {
        evaluation_passes(cs, evaluation_pass(cs, values, cs.len() as int), (rounds - 1) as nat)
    }
}

/// The integer values that lengths and constant indices can name: the predefined constants',
/// then those of the program's `i32` constants that integer arithmetic evaluates, found in as
/// many passes over the constants as there are constants, so that a constant may name one
/// declared after it.
pub open spec fn integer_constants(cs: Seq<Constant>) -> Seq<(Seq<char>, i32)> {
    evaluation_passes(cs, predefined_values_spec(), cs.len())
}

/// One pass, as `evaluation_pass` says, over all the constants.
fn run_pass(cs: &Vec<Constant>, values: &mut Vec<(String, i32)>)
    ensures
        named_values(final(values)@) == evaluation_pass(cs@, named_values(old(values)@), cs@.len() as int),
{
    let ghost start = named_values(values@);
    let mut k: usize = 0;
    while k < cs.len()
        invariant
            k <= cs@.len(),
            named_values(values@) == evaluation_pass(cs@, start, k as int),
        decreases cs.len() - k,
    {
        let c = &cs[k];
        let integer = match c.ty {
            ValueType::I32 => true,
            _ => false,
        };
        proof {
            lemma_lookup_named(values@, c.name@);
        }
        let unvalued = match find_latest(values, c.name.as_str()) {
            Some(_) => false,
            None => true,
        };
        if integer && unvalued {
            match constant_int(values, &c.init) {
                Some(v) => {
                    let ghost before = values@;
                    values.push((c.name.clone(), v));
                    assert(named_values(values@) =~= named_values(before).push((c.name@, v)));
                },
                None => {},
            }
        }
        k += 1;
    }
}

/// A pass only adds values after those it starts from.
proof fn lemma_pass_extends(cs: Seq<Constant>, values: Seq<(Seq<char>, i32)>, i: int)
    ensures
        evaluation_pass(cs, values, i).len() >= values.len(),
        evaluation_pass(cs, values, i).subrange(0, values.len() as int) == values,
    decreases i,
{
    if 0 < i <= cs.len() {
        lemma_pass_extends(cs, values, i - 1);
        let earlier = evaluation_pass(cs, values, i - 1);
        let now = evaluation_pass(cs, values, i);
        if now != earlier {
            assert(now.subrange(0, values.len() as int) =~= earlier.subrange(0, values.len() as int));
        }
    } else {
        assert(values.subrange(0, values.len() as int) =~= values);
    }
}

/// Once a pass adds nothing, further passes add nothing either.
proof fn lemma_passes_settle(cs: Seq<Constant>, values: Seq<(Seq<char>, i32)>, rounds: nat)
    requires
        evaluation_pass(cs, values, cs.len() as int) == values,
    ensures
        evaluation_passes(cs, values, rounds) == values,
    decreases rounds,
{
    if rounds > 0 {
        lemma_passes_settle(cs, values, (rounds - 1) as nat);
    }
}

/// The integer values of a program's constants, as `integer_constants` says. Passes stop early
/// once one adds nothing, since every later pass would add nothing either.
pub fn integer_constant_values(program: &Program) -> (values: Vec<(String, i32)>)
    ensures
        named_values(values@) == integer_constants(program.constants@),
{
    let mut values = predefined_values();
    let cs = &program.constants;
    let ghost start = named_values(values@);
    let mut round: usize = 0;
    while round < cs.len()
        invariant
            round <= cs@.len(),
            cs@ == program.constants@,
            start == predefined_values_spec(),
            evaluation_passes(cs@, start, cs@.len() as nat) == evaluation_passes(
                cs@,
                named_values(values@),
                (cs@.len() - round) as nat,
            ),
        decreases cs.len() - round,
    {
        let before_len = values.len();
        let ghost before = named_values(values@);
        let ghost rounds_left = (cs@.len() - round) as nat;
        assert(evaluation_passes(cs@, start, cs@.len() as nat) == evaluation_passes(cs@, before, (cs@.len() - round) as nat));
        run_pass(cs, &mut values);
        round += 1;
        if values.len() == before_len {
            proof {
                lemma_pass_extends(cs@, before, cs@.len() as int);
                let after = evaluation_pass(cs@, before, cs@.len() as int);
                assert(after == named_values(values@));
                assert(after.len() == before.len());
                assert(after =~= after.subrange(0, before.len() as int));
                assert(after =~= before);
                lemma_passes_settle(cs@, before, rounds_left);
                assert(evaluation_passes(cs@, start, cs@.len() as nat) == before);
                assert(integer_constants(program.constants@) == evaluation_passes(cs@, start, cs@.len() as nat));
            }
            return values;
        }
    }
    values
}

// ---------------------------------------------------------------------------------------------
// Lengths and types

/// Each constant's name and whether its declared type is `i32`.
pub open spec fn constant_kinds(cs: Seq<Constant>) -> Seq<(Seq<char>, bool)> {
    cs.map_values(|c: Constant| (c.name@, c.ty is I32))
}

/// A length of `value` elements: resolved when positive and within the `i32` index range.
pub open spec fn positive_length(value: i64, span: Span) -> (ArrayLength, Findings) {
    if value <= 0 {
        (ArrayLength::Invalid, one(nonpositive_length_message(value), span))
    } else if value > i32::MAX {
        (ArrayLength::Invalid, one("array length exceeds the maximum i32 index range"@, span))
    } else {
        (ArrayLength::Resolved(value as usize), seq![])
    }
}

/// What a written length resolves to, with what resolving it reports. A length named by a
/// constant of another type than `i32` is refused, and so is one named by an `i32` constant
/// whose value is not among `values`.
pub open spec fn length_resolution(kinds: Seq<(Seq<char>, bool)>, values: Seq<(Seq<char>, i32)>, length: ArrayLength) -> (ArrayLength, Findings) {
    match length {
        ArrayLength::Literal { value, span } => positive_length(value, span),
        ArrayLength::Constant { name, span } => match lookup_value(kinds, name@) {
            Some(false) => (ArrayLength::Invalid, one("array length constant `"@ + name@ + "` must have type `i32`"@, span)),
            Some(true) => match lookup_value(values, name@) {
                Some(v) => positive_length(v as i64, span),
                None => (ArrayLength::Invalid, one("array length constant `"@ + name@ + "` could not be evaluated"@, span)),
            },
            None => match lookup_value(values, name@) {
                Some(v) => positive_length(v as i64, span),
                None => (ArrayLength::Invalid, one("unknown array-length constant `"@ + name@ + "`"@, span)),
            },
        },
        _ => (length, seq![]),
    }
}

/// A type with its array lengths resolved, innermost first, and what resolving reports.
pub open spec fn type_resolution(kinds: Seq<(Seq<char>, bool)>, values: Seq<(Seq<char>, i32)>, ty: ValueType) -> (ValueType, Findings)
    decreases ty,
{
    match ty {
        ValueType::Array { element, length } => {
            let (e, ef) = type_resolution(kinds, values, *element);
            let (l, lf) = length_resolution(kinds, values, length);
            (ValueType::Array { element: Box::new(e), length: l }, ef + lf)
        },
        _ => (ty, seq![]),
    }
}

/// What resolving each of a list of types reports, in order.
pub open spec fn resolution_findings(kinds: Seq<(Seq<char>, bool)>, values: Seq<(Seq<char>, i32)>, types: Seq<(ValueType, Span)>) -> Findings
    decreases types.len(),
{
    if types.len() == 0 {
        seq![]
    } else {
        resolution_findings(kinds, values, types.subrange(0, types.len() - 1)) + type_resolution(
            kinds,
            values,
            types[types.len() - 1].0,
        ).1
    }
}

proof fn lemma_resolution_findings_concat(
    kinds: Seq<(Seq<char>, bool)>,
    values: Seq<(Seq<char>, i32)>,
    a: Seq<(ValueType, Span)>,
    b: Seq<(ValueType, Span)>,
)
    ensures
        resolution_findings(kinds, values, a + b) == resolution_findings(kinds, values, a) + resolution_findings(kinds, values, b),
    decreases b.len(),
{
    if b.len() == 0 {
        assert(a + b == a);
    } else {
        let c = a + b;
        assert(c.subrange(0, c.len() - 1) == a + b.subrange(0, b.len() - 1));
        assert(c[c.len() - 1] == b[b.len() - 1]);
        lemma_resolution_findings_concat(kinds, values, a, b.subrange(0, b.len() - 1));
    }
}

proof fn lemma_resolution_findings_one(kinds: Seq<(Seq<char>, bool)>, values: Seq<(Seq<char>, i32)>, ty: ValueType, span: Span)
    ensures
        resolution_findings(kinds, values, seq![(ty, span)]) == type_resolution(kinds, values, ty).1,
{
    let single = seq![(ty, span)];
    assert(single.subrange(0, 0) =~= Seq::<(ValueType, Span)>::empty());
    assert(resolution_findings(kinds, values, single.subrange(0, 0)) == Seq::<(Seq<char>, Span)>::empty());
    assert(single[0] == (ty, span));
    assert(Seq::<(Seq<char>, Span)>::empty() + type_resolution(kinds, values, ty).1 =~= type_resolution(kinds, values, ty).1);
}

/// What a program's lengths are resolved against.
pub struct LengthContext {
    /// Each constant's name and whether it is declared `i32`, in declaration order.
    pub kinds: Vec<(String, bool)>,
    /// The integer values lengths can name.
    pub values: Vec<(String, i32)>,
}

/// Resolves a length, reporting what is wrong with it.
fn resolve_length(ctx: &LengthContext, length: &ArrayLength, diagnostics: &mut Vec<Diagnostic>) -> (resolved: ArrayLength)
    ensures
        resolved == length_resolution(named_values(ctx.kinds@), named_values(ctx.values@), *length).0,
        findings(final(diagnostics)@) == findings(old(diagnostics)@) + length_resolution(named_values(ctx.kinds@), named_values(ctx.values@), *length).1,
{
    let ghost before = findings(diagnostics@);
    match length {
        ArrayLength::Literal { value, span } => positive(*value, *span, diagnostics),
        ArrayLength::Constant { name, span } => {
            proof {
                lemma_lookup_named(ctx.kinds@, name@);
                lemma_lookup_named(ctx.values@, name@);
            }
            let kind = match find_latest(&ctx.kinds, name.as_str()) {
                Some(i) => Some(ctx.kinds[i].1),
                None => None,
            };
            let value = match find_latest(&ctx.values, name.as_str()) {
                Some(i) => Some(ctx.values[i].1),
                None => None,
            };
            match kind {
                Some(false) => {
                    report(diagnostics, join3("array length constant `", name.as_str(), "` must have type `i32`"), *span);
                    ArrayLength::Invalid
                },
                Some(true) => match value {
                    Some(v) => positive(v as i64, *span, diagnostics),
                    None => {
                        report(diagnostics, join3("array length constant `", name.as_str(), "` could not be evaluated"), *span);
                        ArrayLength::Invalid
                    },
                },
                None => match value {
                    Some(v) => positive(v as i64, *span, diagnostics),
                    None => {
                        report(diagnostics, join3("unknown array-length constant `", name.as_str(), "`"), *span);
                        ArrayLength::Invalid
                    },
                },
            }
        },
        ArrayLength::Resolved(n) => {
            assert(findings(diagnostics@) =~= before + Seq::<(Seq<char>, Span)>::empty());
            ArrayLength::Resolved(*n)
        },
        ArrayLength::Invalid => {
            assert(findings(diagnostics@) =~= before + Seq::<(Seq<char>, Span)>::empty());
            ArrayLength::Invalid
        },
    }
}

/// A length of `value` elements, reporting one that is not positive or too large.
fn positive(value: i64, span: Span, diagnostics: &mut Vec<Diagnostic>) -> (resolved: ArrayLength)
    ensures
        resolved == positive_length(value, span).0,
        findings(final(diagnostics)@) == findings(old(diagnostics)@) + positive_length(value, span).1,
{
    match positive_array_length(value, span) {
        Ok(n) => {
            assert(findings(diagnostics@) =~= findings(old(diagnostics)@) + Seq::<(Seq<char>, Span)>::empty());
            ArrayLength::Resolved(n)
        },
        Err(d) => {
            let ghost before = diagnostics@;
            diagnostics.push(d);
            assert(findings(diagnostics@) =~= findings(before) + positive_length(value, span).1);
            ArrayLength::Invalid
        },
    }
}

/// Resolves the lengths in a type, reporting what is wrong with them.
pub fn resolve_type(ctx: &LengthContext, ty: &ValueType, diagnostics: &mut Vec<Diagnostic>) -> (resolved: ValueType)
    ensures
        resolved == type_resolution(named_values(ctx.kinds@), named_values(ctx.values@), *ty).0,
        findings(final(diagnostics)@) == findings(old(diagnostics)@) + type_resolution(named_values(ctx.kinds@), named_values(ctx.values@), *ty).1,
    decreases ty,
{
    match ty {
        ValueType::Array { element, length } => {
            let ghost before = findings(diagnostics@);
            let e = resolve_type(ctx, element, diagnostics);
            let l = resolve_length(ctx, length, diagnostics);
            assert(findings(diagnostics@) =~= before + type_resolution(named_values(ctx.kinds@), named_values(ctx.values@), *ty).1);
            ValueType::Array { element: Box::new(e), length: l }
        },
        _ => {
            assert(findings(diagnostics@) =~= findings(old(diagnostics)@) + Seq::<(Seq<char>, Span)>::empty());
            ty.clone()
        },
    }
}

// ---------------------------------------------------------------------------------------------
// A whole program

/// Whether `r` is the statement `o` with the types its `let` statements write resolved,
/// through nested blocks.
pub open spec fn resolved_statement(k: Seq<(Seq<char>, bool)>, v: Seq<(Seq<char>, i32)>, o: Stmt, r: Stmt) -> bool
    decreases o,
{
    r.span == o.span && match o.kind {
        StmtKind::Let { name, ty, init } => r.kind == (StmtKind::Let { name, ty: type_resolution(k, v, ty).0, init }),
        StmtKind::If { condition, then_block, else_block } => match r.kind {
            StmtKind::If { condition: c, then_block: t, else_block: e } => c == condition && resolved_block(
                k,
                v,
                then_block@,
                t@,
            ) && match (else_block, e) {
                (Some(a), Some(b)) => resolved_block(k, v, a@, b@),
                (None, None) => true,
                _ => false,
            },
            _ => false,
        },
        StmtKind::While { condition, body } => match r.kind {
            StmtKind::While { condition: c, body: b } => c == condition && resolved_block(k, v, body@, b@),
            _ => false,
        },
        StmtKind::For { name, name_span, lower, upper, body } => match r.kind {
            StmtKind::For { name: n, name_span: ns, lower: lo, upper: up, body: b } => n == name && ns == name_span
                && lo == lower && up == upper && resolved_block(k, v, body@, b@),
            _ => false,
        },
        _ => r.kind == o.kind,
    }
}

/// Whether `r` is the block `o` with its statements' types resolved.
pub open spec fn resolved_block(k: Seq<(Seq<char>, bool)>, v: Seq<(Seq<char>, i32)>, o: Seq<Stmt>, r: Seq<Stmt>) -> bool
    decreases o,
{
    if o.len() == 0 {
        r.len() == 0
    } else {
        r.len() == o.len() && resolved_block(k, v, o.subrange(0, o.len() - 1), r.subrange(0, r.len() - 1))
            && resolved_statement(k, v, o[o.len() - 1], r[r.len() - 1])
    }
}

proof fn lemma_block_types_step(block: Seq<Stmt>, n: int)
    requires
        0 <= n < block.len(),
    ensures
        block_types(block.subrange(0, n + 1)) == block_types(block.subrange(0, n)) + statement_types(block[n]),
{
    let prefix = block.subrange(0, n + 1);
    assert(prefix.subrange(0, prefix.len() - 1) == block.subrange(0, n));
    assert(prefix[prefix.len() - 1] == block[n]);
}

/// Resolves the types a statement writes.
fn resolve_statement(ctx: &LengthContext, statement: Stmt, diagnostics: &mut Vec<Diagnostic>) -> (resolved: Stmt)
    ensures
        resolved_statement(named_values(ctx.kinds@), named_values(ctx.values@), statement, resolved),
        findings(final(diagnostics)@) == findings(old(diagnostics)@) + resolution_findings(
            named_values(ctx.kinds@),
            named_values(ctx.values@),
            statement_types(statement),
        ),
    decreases statement,
{
    let ghost k = named_values(ctx.kinds@);
    let ghost v = named_values(ctx.values@);
    let ghost o = statement;
    let ghost before = findings(diagnostics@);
    let Stmt { kind, span } = statement;
    match kind {
        StmtKind::Let { name, ty, init } => {
            let t = resolve_type(ctx, &ty, diagnostics);
            proof {
                lemma_resolution_findings_one(k, v, ty, span);
            }
            Stmt { kind: StmtKind::Let { name, ty: t, init }, span }
        },
        StmtKind::If { condition, then_block, else_block } => {
            let t = resolve_block(ctx, then_block, diagnostics);
            let ghost mid = findings(diagnostics@);
            let e = match else_block {
                Some(b) => {
                    let ghost bv = b@;
                    let r = resolve_block(ctx, b, diagnostics);
                    proof {
                        lemma_resolution_findings_concat(k, v, block_types(then_block@), block_types(bv));
                    }
                    Some(r)
                },
                None => {
                    assert(block_types(then_block@) + Seq::<(ValueType, Span)>::empty() == block_types(then_block@));
                    None
                },
            };
            Stmt { kind: StmtKind::If { condition, then_block: t, else_block: e }, span }
        },
        StmtKind::While { condition, body } => {
            let b = resolve_block(ctx, body, diagnostics);
            Stmt { kind: StmtKind::While { condition, body: b }, span }
        },
        StmtKind::For { name, name_span, lower, upper, body } => {
            let b = resolve_block(ctx, body, diagnostics);
            Stmt { kind: StmtKind::For { name, name_span, lower, upper, body: b }, span }
        },
        StmtKind::Assign { target, op, value } => {
            assert(findings(diagnostics@) =~= before + resolution_findings(k, v, statement_types(o)));
            Stmt { kind: StmtKind::Assign { target, op, value }, span }
        },
        StmtKind::Expr(e) => {
            assert(findings(diagnostics@) =~= before + resolution_findings(k, v, statement_types(o)));
            Stmt { kind: StmtKind::Expr(e), span }
        },
        StmtKind::Return(value) => {
            assert(findings(diagnostics@) =~= before + resolution_findings(k, v, statement_types(o)));
            Stmt { kind: StmtKind::Return(value), span }
        },
    }
}

/// Resolves the types a block writes, statement by statement.
fn resolve_block(ctx: &LengthContext, block: Vec<Stmt>, diagnostics: &mut Vec<Diagnostic>) -> (resolved: Vec<Stmt>)
    ensures
        resolved_block(named_values(ctx.kinds@), named_values(ctx.values@), block@, resolved@),
        findings(final(diagnostics)@) == findings(old(diagnostics)@) + resolution_findings(
            named_values(ctx.kinds@),
            named_values(ctx.values@),
            block_types(block@),
        ),
    decreases block@,
{
    let ghost k = named_values(ctx.kinds@);
    let ghost v = named_values(ctx.values@);
    let ghost o = block@;
    let mut block = block;
    match block.pop() {
        None => {
            assert(o =~= Seq::<Stmt>::empty());
            assert(findings(diagnostics@) =~= findings(old(diagnostics)@) + resolution_findings(k, v, block_types(o)));
            block
        },
        Some(last) => {
            let n = block.len();
            assert(block@ == o.subrange(0, n as int));
            assert(last == o[n as int]);
            let mut out = resolve_block(ctx, block, diagnostics);
            let ghost out0 = out@;
            let r = resolve_statement(ctx, last, diagnostics);
            out.push(r);
            proof {
                lemma_block_types_step(o, n as int);
                assert(o.subrange(0, n + 1) == o);
                lemma_resolution_findings_concat(k, v, block_types(o.subrange(0, n as int)), statement_types(o[n as int]));
                assert(out@.subrange(0, out@.len() - 1) == out0);
            }
            out
        },
    }
}

/// Whether `r` is the field list `o` with its types resolved.
pub open spec fn resolved_fields(k: Seq<(Seq<char>, bool)>, v: Seq<(Seq<char>, i32)>, o: Seq<StructField>, r: Seq<StructField>) -> bool {
    r.len() == o.len() && forall|i: int|
        0 <= i < o.len() ==> #[trigger] r[i] == (StructField { name: o[i].name, ty: type_resolution(k, v, o[i].ty).0, span: o[i].span })
}

/// Whether `r` is the struct list `o` with its field types resolved.
pub open spec fn resolved_structs(k: Seq<(Seq<char>, bool)>, v: Seq<(Seq<char>, i32)>, o: Seq<StructDecl>, r: Seq<StructDecl>) -> bool {
    r.len() == o.len() && forall|i: int|
        0 <= i < o.len() ==> (#[trigger] r[i]).name == o[i].name && r[i].span == o[i].span && resolved_fields(
            k,
            v,
            o[i].fields@,
            r[i].fields@,
        )
}

/// Whether `r` is the constant list `o` with its types resolved.
pub open spec fn resolved_constants(k: Seq<(Seq<char>, bool)>, v: Seq<(Seq<char>, i32)>, o: Seq<Constant>, r: Seq<Constant>) -> bool {
    r.len() == o.len() && forall|i: int|
        0 <= i < o.len() ==> #[trigger] r[i] == (Constant {
            name: o[i].name,
            ty: type_resolution(k, v, o[i].ty).0,
            init: o[i].init,
            span: o[i].span,
        })
}

/// Whether `r` is the global list `o` with its types resolved.
pub open spec fn resolved_globals(k: Seq<(Seq<char>, bool)>, v: Seq<(Seq<char>, i32)>, o: Seq<Global>, r: Seq<Global>) -> bool {
    r.len() == o.len() && forall|i: int|
        0 <= i < o.len() ==> #[trigger] r[i] == (Global {
            name: o[i].name,
            ty: type_resolution(k, v, o[i].ty).0,
            init: o[i].init,
            span: o[i].span,
        })
}

/// Whether `r` is the parameter list `o` with its types resolved.
pub open spec fn resolved_params(k: Seq<(Seq<char>, bool)>, v: Seq<(Seq<char>, i32)>, o: Seq<Param>, r: Seq<Param>) -> bool {
    r.len() == o.len() && forall|i: int|
        0 <= i < o.len() ==> #[trigger] r[i] == (Param { name: o[i].name, ty: type_resolution(k, v, o[i].ty).0, span: o[i].span })
}

/// A return type with its lengths resolved.
pub open spec fn resolved_return(k: Seq<(Seq<char>, bool)>, v: Seq<(Seq<char>, i32)>, ret: ReturnType) -> ReturnType {
    match ret {
        ReturnType::Value(t) => ReturnType::Value(type_resolution(k, v, t).0),
        ReturnType::Void => ReturnType::Void,
    }
}

/// Whether `r` is the function `o` with the types it writes resolved.
pub open spec fn resolved_function(k: Seq<(Seq<char>, bool)>, v: Seq<(Seq<char>, i32)>, o: Function, r: Function) -> bool {
    r.name == o.name && r.kind == o.kind && r.span == o.span && resolved_params(k, v, o.params@, r.params@)
        && r.return_type == resolved_return(k, v, o.return_type) && resolved_block(k, v, o.body@, r.body@)
}

/// Whether `r` is the program `o` with every type it writes resolved.
pub open spec fn resolved_program(k: Seq<(Seq<char>, bool)>, v: Seq<(Seq<char>, i32)>, o: Program, r: Program) -> bool {
    &&& r.title == o.title
    &&& r.title_span == o.title_span
    &&& r.float_bits == o.float_bits
    &&& resolved_structs(k, v, o.structs@, r.structs@)
    &&& resolved_constants(k, v, o.constants@, r.constants@)
    &&& resolved_globals(k, v, o.globals@, r.globals@)
    &&& r.functions@.len() == o.functions@.len()
    &&& forall|i: int| 0 <= i < o.functions@.len() ==> #[trigger] resolved_function(k, v, o.functions@[i], r.functions@[i])
}

proof fn lemma_resolution_findings_push(k: Seq<(Seq<char>, bool)>, v: Seq<(Seq<char>, i32)>, a: Seq<(ValueType, Span)>, x: (ValueType, Span))
    ensures
        resolution_findings(k, v, a.push(x)) == resolution_findings(k, v, a) + type_resolution(k, v, x.0).1,
{
    let b = a.push(x);
    assert(b.subrange(0, b.len() - 1) == a);
    assert(b[b.len() - 1] == x);
}

/// Resolves the field types of a struct.
fn resolve_fields(ctx: &LengthContext, fields: Vec<StructField>, diagnostics: &mut Vec<Diagnostic>) -> (resolved: Vec<StructField>)
    ensures
        resolved_fields(named_values(ctx.kinds@), named_values(ctx.values@), fields@, resolved@),
        findings(final(diagnostics)@) == findings(old(diagnostics)@) + resolution_findings(
            named_values(ctx.kinds@),
            named_values(ctx.values@),
            field_types(fields@),
        ),
{
    let ghost k = named_values(ctx.kinds@);
    let ghost v = named_values(ctx.values@);
    let ghost o = fields@;
    let ghost before = findings(diagnostics@);
    let total = fields.len();
    let mut rest = fields;
    let mut out: Vec<StructField> = Vec::new();
    let mut n: usize = 0;
    assert(field_types(o.subrange(0, 0)) =~= Seq::<(ValueType, Span)>::empty());
    assert(rest@ == o.subrange(0, o.len() as int));
    while rest.len() > 0
        invariant
            n <= o.len(),
            o.len() == total,
            rest@ == o.subrange(n as int, o.len() as int),
            out@.len() == n,
            forall|i: int|
                0 <= i < n ==> #[trigger] out@[i] == (StructField { name: o[i].name, ty: type_resolution(k, v, o[i].ty).0, span: o[i].span }),
            k == named_values(ctx.kinds@),
            v == named_values(ctx.values@),
            findings(diagnostics@) == before + resolution_findings(k, v, field_types(o.subrange(0, n as int))),
        decreases rest.len(),
    {
        let field = rest.remove(0);
        assert(field == o[n as int]);
        let StructField { name, ty, span } = field;
        let t = resolve_type(ctx, &ty, diagnostics);
        out.push(StructField { name, ty: t, span });
        proof {
            assert(field_types(o.subrange(0, n + 1)) =~= field_types(o.subrange(0, n as int)).push((ty, span)));
            lemma_resolution_findings_push(k, v, field_types(o.subrange(0, n as int)), (ty, span));
            assert(rest@ =~= o.subrange(n + 1, o.len() as int));
        }
        n += 1;
    }
    assert(o.subrange(0, n as int) == o);
    out
}

/// Resolves the field types of every struct.
fn resolve_structs(ctx: &LengthContext, structs: Vec<StructDecl>, diagnostics: &mut Vec<Diagnostic>) -> (resolved: Vec<StructDecl>)
    ensures
        resolved_structs(named_values(ctx.kinds@), named_values(ctx.values@), structs@, resolved@),
        findings(final(diagnostics)@) == findings(old(diagnostics)@) + resolution_findings(
            named_values(ctx.kinds@),
            named_values(ctx.values@),
            struct_types(structs@),
        ),
{
    let ghost k = named_values(ctx.kinds@);
    let ghost v = named_values(ctx.values@);
    let ghost o = structs@;
    let ghost before = findings(diagnostics@);
    let total = structs.len();
    let mut rest = structs;
    let mut out: Vec<StructDecl> = Vec::new();
    let mut n: usize = 0;
    assert(struct_types(o.subrange(0, 0)) =~= Seq::<(ValueType, Span)>::empty());
    assert(rest@ == o.subrange(0, o.len() as int));
    while rest.len() > 0
        invariant
            n <= o.len(),
            o.len() == total,
            rest@ == o.subrange(n as int, o.len() as int),
            out@.len() == n,
            forall|i: int|
                0 <= i < n ==> (#[trigger] out@[i]).name == o[i].name && out@[i].span == o[i].span && resolved_fields(
                    k,
                    v,
                    o[i].fields@,
                    out@[i].fields@,
                ),
            k == named_values(ctx.kinds@),
            v == named_values(ctx.values@),
            findings(diagnostics@) == before + resolution_findings(k, v, struct_types(o.subrange(0, n as int))),
        decreases rest.len(),
    {
        let declaration = rest.remove(0);
        assert(declaration == o[n as int]);
        let StructDecl { name, fields, span } = declaration;
        let ghost fv = fields@;
        let resolved_fields = resolve_fields(ctx, fields, diagnostics);
        out.push(StructDecl { name, fields: resolved_fields, span });
        proof {
            let prefix = o.subrange(0, n + 1);
            assert(prefix.drop_last() == o.subrange(0, n as int));
            assert(prefix.last() == o[n as int]);
            assert(struct_types(prefix) == struct_types(o.subrange(0, n as int)) + field_types(fv));
            lemma_resolution_findings_concat(k, v, struct_types(o.subrange(0, n as int)), field_types(fv));
            assert(rest@ =~= o.subrange(n + 1, o.len() as int));
        }
        n += 1;
    }
    assert(o.subrange(0, n as int) == o);
    out
}

/// The types constants write, with their spans.
pub open spec fn constant_types_written(cs: Seq<Constant>) -> Seq<(ValueType, Span)> {
    cs.map_values(|c: Constant| (c.ty, c.span))
}

/// The types globals write, with their spans.
pub open spec fn global_types_written(gs: Seq<Global>) -> Seq<(ValueType, Span)> {
    gs.map_values(|g: Global| (g.ty, g.span))
}

/// The types parameters write, with their spans.
pub open spec fn param_types_written(ps: Seq<Param>) -> Seq<(ValueType, Span)> {
    ps.map_values(|p: Param| (p.ty, p.span))
}

/// Resolves the types of constants.
fn resolve_constants(ctx: &LengthContext, constants: Vec<Constant>, diagnostics: &mut Vec<Diagnostic>) -> (resolved: Vec<Constant>)
    ensures
        resolved_constants(named_values(ctx.kinds@), named_values(ctx.values@), constants@, resolved@),
        findings(final(diagnostics)@) == findings(old(diagnostics)@) + resolution_findings(
            named_values(ctx.kinds@),
            named_values(ctx.values@),
            constant_types_written(constants@),
        ),
{
    let ghost k = named_values(ctx.kinds@);
    let ghost v = named_values(ctx.values@);
    let ghost o = constants@;
    let ghost before = findings(diagnostics@);
    let total = constants.len();
    let mut rest = constants;
    let mut out: Vec<Constant> = Vec::new();
    let mut n: usize = 0;
    assert(constant_types_written(o.subrange(0, 0)) =~= Seq::<(ValueType, Span)>::empty());
    assert(rest@ == o.subrange(0, o.len() as int));
    while rest.len() > 0
        invariant
            n <= o.len(),
            o.len() == total,
            rest@ == o.subrange(n as int, o.len() as int),
            out@.len() == n,
            forall|i: int|
                0 <= i < n ==> #[trigger] out@[i] == (Constant {
                    name: o[i].name,
                    ty: type_resolution(k, v, o[i].ty).0,
                    init: o[i].init,
                    span: o[i].span,
                }),
            k == named_values(ctx.kinds@),
            v == named_values(ctx.values@),
            findings(diagnostics@) == before + resolution_findings(k, v, constant_types_written(o.subrange(0, n as int))),
        decreases rest.len(),
    {
        let constant = rest.remove(0);
        assert(constant == o[n as int]);
        let Constant { name, ty, init, span } = constant;
        let t = resolve_type(ctx, &ty, diagnostics);
        out.push(Constant { name, ty: t, init, span });
        proof {
            assert(constant_types_written(o.subrange(0, n + 1)) =~= constant_types_written(o.subrange(0, n as int)).push((ty, span)));
            lemma_resolution_findings_push(k, v, constant_types_written(o.subrange(0, n as int)), (ty, span));
            assert(rest@ =~= o.subrange(n + 1, o.len() as int));
        }
        n += 1;
    }
    assert(o.subrange(0, n as int) == o);
    out
}

/// Resolves the types of globals.
fn resolve_globals(ctx: &LengthContext, globals: Vec<Global>, diagnostics: &mut Vec<Diagnostic>) -> (resolved: Vec<Global>)
    ensures
        resolved_globals(named_values(ctx.kinds@), named_values(ctx.values@), globals@, resolved@),
        findings(final(diagnostics)@) == findings(old(diagnostics)@) + resolution_findings(
            named_values(ctx.kinds@),
            named_values(ctx.values@),
            global_types_written(globals@),
        ),
{
    let ghost k = named_values(ctx.kinds@);
    let ghost v = named_values(ctx.values@);
    let ghost o = globals@;
    let ghost before = findings(diagnostics@);
    let total = globals.len();
    let mut rest = globals;
    let mut out: Vec<Global> = Vec::new();
    let mut n: usize = 0;
    assert(global_types_written(o.subrange(0, 0)) =~= Seq::<(ValueType, Span)>::empty());
    assert(rest@ == o.subrange(0, o.len() as int));
    while rest.len() > 0
        invariant
            n <= o.len(),
            o.len() == total,
            rest@ == o.subrange(n as int, o.len() as int),
            out@.len() == n,
            forall|i: int|
                0 <= i < n ==> #[trigger] out@[i] == (Global {
                    name: o[i].name,
                    ty: type_resolution(k, v, o[i].ty).0,
                    init: o[i].init,
                    span: o[i].span,
                }),
            k == named_values(ctx.kinds@),
            v == named_values(ctx.values@),
            findings(diagnostics@) == before + resolution_findings(k, v, global_types_written(o.subrange(0, n as int))),
        decreases rest.len(),
    {
        let global = rest.remove(0);
        assert(global == o[n as int]);
        let Global { name, ty, init, span } = global;
        let t = resolve_type(ctx, &ty, diagnostics);
        out.push(Global { name, ty: t, init, span });
        proof {
            assert(global_types_written(o.subrange(0, n + 1)) =~= global_types_written(o.subrange(0, n as int)).push((ty, span)));
            lemma_resolution_findings_push(k, v, global_types_written(o.subrange(0, n as int)), (ty, span));
            assert(rest@ =~= o.subrange(n + 1, o.len() as int));
        }
        n += 1;
    }
    assert(o.subrange(0, n as int) == o);
    out
}

/// Resolves the types of parameters.
fn resolve_params(ctx: &LengthContext, params: Vec<Param>, diagnostics: &mut Vec<Diagnostic>) -> (resolved: Vec<Param>)
    ensures
        resolved_params(named_values(ctx.kinds@), named_values(ctx.values@), params@, resolved@),
        findings(final(diagnostics)@) == findings(old(diagnostics)@) + resolution_findings(
            named_values(ctx.kinds@),
            named_values(ctx.values@),
            param_types_written(params@),
        ),
{
    let ghost k = named_values(ctx.kinds@);
    let ghost v = named_values(ctx.values@);
    let ghost o = params@;
    let ghost before = findings(diagnostics@);
    let total = params.len();
    let mut rest = params;
    let mut out: Vec<Param> = Vec::new();
    let mut n: usize = 0;
    assert(param_types_written(o.subrange(0, 0)) =~= Seq::<(ValueType, Span)>::empty());
    assert(rest@ == o.subrange(0, o.len() as int));
    while rest.len() > 0
        invariant
            n <= o.len(),
            o.len() == total,
            rest@ == o.subrange(n as int, o.len() as int),
            out@.len() == n,
            forall|i: int|
                0 <= i < n ==> #[trigger] out@[i] == (Param { name: o[i].name, ty: type_resolution(k, v, o[i].ty).0, span: o[i].span }),
            k == named_values(ctx.kinds@),
            v == named_values(ctx.values@),
            findings(diagnostics@) == before + resolution_findings(k, v, param_types_written(o.subrange(0, n as int))),
        decreases rest.len(),
    {
        let param = rest.remove(0);
        assert(param == o[n as int]);
        let Param { name, ty, span } = param;
        let t = resolve_type(ctx, &ty, diagnostics);
        out.push(Param { name, ty: t, span });
        proof {
            assert(param_types_written(o.subrange(0, n + 1)) =~= param_types_written(o.subrange(0, n as int)).push((ty, span)));
            lemma_resolution_findings_push(k, v, param_types_written(o.subrange(0, n as int)), (ty, span));
            assert(rest@ =~= o.subrange(n + 1, o.len() as int));
        }
        n += 1;
    }
    assert(o.subrange(0, n as int) == o);
    out
}

/// Resolves the types a function writes: parameters, return type, body.
fn resolve_function(ctx: &LengthContext, function: Function, diagnostics: &mut Vec<Diagnostic>) -> (resolved: Function)
    ensures
        resolved_function(named_values(ctx.kinds@), named_values(ctx.values@), function, resolved),
        findings(final(diagnostics)@) == findings(old(diagnostics)@) + resolution_findings(
            named_values(ctx.kinds@),
            named_values(ctx.values@),
            function_types(function),
        ),
{
    let ghost k = named_values(ctx.kinds@);
    let ghost v = named_values(ctx.values@);
    let ghost o = function;
    let ghost before = findings(diagnostics@);
    let Function { name, kind, params, return_type, body, span } = function;
    let params = resolve_params(ctx, params, diagnostics);
    let ghost after_params = findings(diagnostics@);
    let return_type = match return_type {
        ReturnType::Value(t) => {
            let r = resolve_type(ctx, &t, diagnostics);
            proof {
                lemma_resolution_findings_one(k, v, t, span);
            }
            ReturnType::Value(r)
        },
        ReturnType::Void => {
            assert(resolution_findings(k, v, returned_types(o)) == Seq::<(Seq<char>, Span)>::empty());
            ReturnType::Void
        },
    };
    let body = resolve_block(ctx, body, diagnostics);
    proof {
        lemma_resolution_findings_concat(k, v, param_types_written(o.params@), returned_types(o));
        lemma_resolution_findings_concat(k, v, param_types_written(o.params@) + returned_types(o), block_types(o.body@));
        assert(function_types(o) == param_types_written(o.params@) + returned_types(o) + block_types(o.body@));
    }
    Function { name, kind, params, return_type, body, span }
}

/// Resolves every array length a program writes, against the integer values of its constants.
/// Each length that cannot be resolved becomes invalid, and what is wrong with it is reported,
/// in the order the program writes its types.
pub fn resolve_program(program: Program, diagnostics: &mut Vec<Diagnostic>) -> (resolved: Program)
    ensures
        resolved_program(constant_kinds(program.constants@), integer_constants(program.constants@), program, resolved),
        findings(final(diagnostics)@) == findings(old(diagnostics)@) + resolution_findings(
            constant_kinds(program.constants@),
            integer_constants(program.constants@),
            program_types(program),
        ),
{
    let ghost o = program;
    let values = integer_constant_values(&program);
    let mut kinds: Vec<(String, bool)> = Vec::new();
    let mut n: usize = 0;
    while n < program.constants.len()
        invariant
            n <= program.constants@.len(),
            named_values(kinds@) == constant_kinds(program.constants@.subrange(0, n as int)),
        decreases program.constants.len() - n,
    {
        let c = &program.constants[n];
        let integer = match c.ty {
            ValueType::I32 => true,
            _ => false,
        };
        let ghost before = kinds@;
        kinds.push((c.name.clone(), integer));
        assert(named_values(kinds@) =~= named_values(before).push((c.name@, integer)));
        assert(constant_kinds(program.constants@.subrange(0, n + 1)) =~= constant_kinds(program.constants@.subrange(0, n as int)).push((c.name@, integer)));
        n += 1;
    }
    assert(program.constants@.subrange(0, n as int) == program.constants@);
    let ctx = LengthContext { kinds, values };
    let ghost k = named_values(ctx.kinds@);
    let ghost v = named_values(ctx.values@);
    let Program { title, title_span, structs, constants, globals, functions, float_bits } = program;
    let structs = resolve_structs(&ctx, structs, diagnostics);
    let constants = resolve_constants(&ctx, constants, diagnostics);
    let globals = resolve_globals(&ctx, globals, diagnostics);
    let ghost before_functions = findings(diagnostics@);
    let total = functions.len();
    let mut rest = functions;
    let ghost fo = rest@;
    let mut out: Vec<Function> = Vec::new();
    let mut n: usize = 0;
    assert(functions_types(fo.subrange(0, 0)) =~= Seq::<(ValueType, Span)>::empty());
    assert(rest@ == fo.subrange(0, fo.len() as int));
    while rest.len() > 0
        invariant
            n <= fo.len(),
            fo.len() == total,
            rest@ == fo.subrange(n as int, fo.len() as int),
            out@.len() == n,
            forall|i: int| 0 <= i < n ==> #[trigger] resolved_function(k, v, fo[i], out@[i]),
            k == named_values(ctx.kinds@),
            v == named_values(ctx.values@),
            findings(diagnostics@) == before_functions + resolution_findings(k, v, functions_types(fo.subrange(0, n as int))),
        decreases rest.len(),
    {
        let function = rest.remove(0);
        assert(function == fo[n as int]);
        let r = resolve_function(&ctx, function, diagnostics);
        out.push(r);
        proof {
            let prefix = fo.subrange(0, n + 1);
            assert(prefix.drop_last() == fo.subrange(0, n as int));
            assert(prefix.last() == fo[n as int]);
            lemma_resolution_findings_concat(k, v, functions_types(fo.subrange(0, n as int)), function_types(fo[n as int]));
            assert(rest@ =~= fo.subrange(n + 1, fo.len() as int));
        }
        n += 1;
    }
    assert(fo.subrange(0, n as int) == fo);
    proof {
        let a = struct_types(o.structs@);
        let b = constant_types_written(o.constants@);
        let c = global_types_written(o.globals@);
        let d = functions_types(o.functions@);
        assert(program_types(o) == a + b + c + d);
        lemma_resolution_findings_concat(k, v, a, b);
        lemma_resolution_findings_concat(k, v, a + b, c);
        lemma_resolution_findings_concat(k, v, a + b + c, d);
    }
    Program { title, title_span, structs, constants, globals, functions: out, float_bits }
}

} // verus!
