//! Checking a program's initializers and function bodies against its declarations: the tables
//! that bodies see, and the checks in program order.
use vstd::prelude::*;

use crate::ast::{value_type_name, Constant, Function, FunctionKind, Global, Param, Program, ReturnType, ValueType};
use crate::builtins::{builtin_signature, constants, functions, is_predefined_constant, predefined_name, BUILTIN_COUNT};
use crate::diagnostic::{Diagnostic, Span};
use crate::keyboard::KEY_COUNT;
use crate::resolution::Resolution;
use crate::sema::declarations::{
    check_update_signature, collect_declaration_findings, declaration_findings, fails_to_resolve, predefined_names,
    resolution_fails, update_finding,
};
use crate::sema::evaluation::{check_evaluation, evaluation_findings, initial_values_of, InitialValues};
use crate::sema::inference::{copy_return, report, require_value_as, scopes_view};
use crate::sema::statements::check_function;
use crate::sema::typing::{
    function_spec, named_values, one, require_value_as_spec, same, same_type, Binding, Env, Findings, Signature,
};
use crate::sema::{
    compile_time_findings, deduplicate_diagnostics, findings, first_occurrences, lemma_first_occurrences_contains,
    validate_compile_time_structure, StructTypeAnalysis,
};
use crate::text::{owned, push_str, str_equal};

verus! {

// ---------------------------------------------------------------------------------------------
// The tables a body sees

/// A function table entry by its views: name, parameter types, return type.
pub open spec fn signature_view(entry: (String, Signature)) -> (Seq<char>, Seq<ValueType>, ReturnType) {
    (entry.0@, entry.1.params@, entry.1.return_type)
}

/// A function table by its views.
pub open spec fn signature_views(table: Seq<(String, Signature)>) -> Seq<(Seq<char>, Seq<ValueType>, ReturnType)> {
    table.map_values(|e: (String, Signature)| signature_view(e))
}

proof fn lemma_signature_views_push(t: Seq<(String, Signature)>, x: (String, Signature))
    ensures
        signature_views(t.push(x)) == signature_views(t).push(signature_view(x)),
{
    assert(signature_views(t.push(x)) =~= signature_views(t).push(signature_view(x)));
}

/// The runtime functions' signatures, in table order.
pub open spec fn builtin_entries() -> Seq<(Seq<char>, Seq<ValueType>, ReturnType)> {
    Seq::new(
        BUILTIN_COUNT as nat,
        |i: int| (builtin_signature(i).0, builtin_signature(i).1, builtin_signature(i).2),
    )
}

/// The types of a list of parameters.
pub open spec fn param_type_list(params: Seq<Param>) -> Seq<ValueType> {
    params.map_values(|p: Param| p.ty)
}

/// The signatures of a program's named functions, in order.
pub open spec fn named_signatures(fs: Seq<Function>) -> Seq<(Seq<char>, Seq<ValueType>, ReturnType)>
    decreases fs.len(),
{
    if fs.len() == 0 {
        seq![]
    } else {
        let f = fs[fs.len() - 1];
        named_signatures(fs.subrange(0, fs.len() - 1)) + if f.kind is Named {
            seq![(f.name@, param_type_list(f.params@), f.return_type)]
        } else {
            seq![]
        }
    }
}

/// Every function a body can call: the runtime functions, then the program's named functions;
/// a later entry with the same name replaces an earlier one.
pub open spec fn signatures(program: Program) -> Seq<(Seq<char>, Seq<ValueType>, ReturnType)> {
    builtin_entries() + named_signatures(program.functions@)
}

/// A copy of a list of types.
fn copy_types(types: &Vec<ValueType>) -> (copy: Vec<ValueType>)
    ensures
        copy@ == types@,
{
    let mut copy: Vec<ValueType> = Vec::new();
    let mut k: usize = 0;
    while k < types.len()
        invariant
            k <= types@.len(),
            copy@ == types@.subrange(0, k as int),
        decreases types.len() - k,
    {
        copy.push(types[k].clone());
        assert(copy@ == types@.subrange(0, k + 1));
        k += 1;
    }
    assert(types@.subrange(0, k as int) == types@);
    copy
}

/// The parameter types of a function.
fn param_types(params: &Vec<Param>) -> (types: Vec<ValueType>)
    ensures
        types@ == param_type_list(params@),
{
    let mut types: Vec<ValueType> = Vec::new();
    let mut k: usize = 0;
    while k < params.len()
        invariant
            k <= params@.len(),
            types@ == param_type_list(params@.subrange(0, k as int)),
        decreases params.len() - k,
    {
        types.push(params[k].ty.clone());
        assert(types@ =~= param_type_list(params@.subrange(0, k + 1)));
        k += 1;
    }
    assert(params@.subrange(0, k as int) == params@);
    types
}

/// The function table that bodies see.
pub fn function_table(program: &Program) -> (table: Vec<(String, Signature)>)
    ensures
        signature_views(table@) == signatures(*program),
{
    let runtime = functions();
    let mut table: Vec<(String, Signature)> = Vec::new();
    let mut i: usize = 0;
    while i < runtime.len()
        invariant
            i <= runtime@.len(),
            runtime@.len() == BUILTIN_COUNT,
            forall|j: int|
                0 <= j < BUILTIN_COUNT ==> ((#[trigger] runtime@[j]).name@, runtime@[j].params@, runtime@[j].return_type,
                    runtime@[j].llvm_symbol@) == builtin_signature(j),
            signature_views(table@) == builtin_entries().subrange(0, i as int),
        decreases runtime.len() - i,
    {
        let entry = &runtime[i];
        let ghost old_table = table@;
        table.push((owned(entry.name), Signature { params: copy_types(&entry.params), return_type: copy_return(&entry.return_type) }));
        proof {
            lemma_signature_views_push(old_table, table@.last());
        }
        assert(signature_view(table@.last()) == builtin_entries()[i as int]);
        assert(signature_views(table@) =~= builtin_entries().subrange(0, i + 1));
        i += 1;
    }
    let fs = &program.functions;
    let ghost base = builtin_entries();
    assert(builtin_entries().subrange(0, i as int) == base);
    let mut k: usize = 0;
    while k < fs.len()
        invariant
            k <= fs@.len(),
            signatures(*program) == base + named_signatures(fs@),
            signature_views(table@) == base + named_signatures(fs@.subrange(0, k as int)),
        decreases fs.len() - k,
    {
        let ghost prefix = fs@.subrange(0, k + 1);
        assert(prefix.subrange(0, prefix.len() - 1) == fs@.subrange(0, k as int));
        assert(prefix[prefix.len() - 1] == fs@[k as int]);
        let f = &fs[k];
        let ghost old_table = table@;
        match f.kind {
            FunctionKind::Named => {
                table.push((f.name.clone(), Signature { params: param_types(&f.params), return_type: copy_return(&f.return_type) }));
            },
            _ => {},
        }
        proof {
            if fs@[k as int].kind is Named {
                lemma_signature_views_push(old_table, table@.last());
                assert(signature_view(table@.last()) == (fs@[k as int].name@, param_type_list(fs@[k as int].params@), fs@[k as int].return_type));
            }
        }
        assert(signature_views(table@) =~= base + named_signatures(prefix));
        k += 1;
    }
    assert(fs@.subrange(0, k as int) == fs@);
    table
}

/// A constant table entry by its views: name and type.
pub open spec fn typed_view(entry: (String, ValueType)) -> (Seq<char>, ValueType) {
    (entry.0@, entry.1)
}

/// A constant table by its views.
pub open spec fn typed_views(table: Seq<(String, ValueType)>) -> Seq<(Seq<char>, ValueType)> {
    table.map_values(|e: (String, ValueType)| typed_view(e))
}

/// The program's constants that keep their name: those not named like a predefined constant.
pub open spec fn program_constant_types(cs: Seq<Constant>) -> Seq<(Seq<char>, ValueType)>
    decreases cs.len(),
{
    if cs.len() == 0 {
        seq![]
    } else {
        let c = cs[cs.len() - 1];
        program_constant_types(cs.subrange(0, cs.len() - 1)) + if predefined_name(c.name@) {
            seq![]
        } else {
            seq![(c.name@, c.ty)]
        }
    }
}

proof fn lemma_typed_views_push(t: Seq<(String, ValueType)>, x: (String, ValueType))
    ensures
        typed_views(t.push(x)) == typed_views(t).push(typed_view(x)),
{
    assert(typed_views(t.push(x)) =~= typed_views(t).push(typed_view(x)));
}

/// The predefined constants with their type.
pub open spec fn predefined_types() -> Seq<(Seq<char>, ValueType)> {
    predefined_names().map_values(|name: Seq<char>| (name, ValueType::I32))
}

/// Every constant a body can read, with its type: the predefined ones, then the program's.
pub open spec fn constant_types(program: Program) -> Seq<(Seq<char>, ValueType)> {
    predefined_types() + program_constant_types(program.constants@)
}

/// The constant table that bodies see.
pub fn constant_table(program: &Program) -> (table: Vec<(String, ValueType)>)
    ensures
        typed_views(table@) == constant_types(*program),
{
    let predefined = constants(Resolution::default());
    let ghost first = predefined_types();
    let mut table: Vec<(String, ValueType)> = Vec::new();
    let mut i: usize = 0;
    while i < predefined.len()
        invariant
            i <= predefined@.len(),
            predefined@.len() == KEY_COUNT + 2,
            first.len() == KEY_COUNT + 2,
            first == predefined_types(),
            forall|j: int| 0 <= j < predefined@.len() ==> (#[trigger] predefined@[j]).name@ == predefined_names()[j],
            typed_views(table@) == first.subrange(0, i as int),
        decreases predefined.len() - i,
    {
        let ghost old_table = table@;
        table.push((owned(predefined[i].name), ValueType::I32));
        proof {
            lemma_typed_views_push(old_table, table@.last());
        }
        assert(typed_view(table@.last()) == first[i as int]);
        assert(typed_views(table@) =~= first.subrange(0, i + 1));
        i += 1;
    }
    assert(first.subrange(0, i as int) == first);
    let cs = &program.constants;
    let mut k: usize = 0;
    while k < cs.len()
        invariant
            k <= cs@.len(),
            typed_views(table@) == first + program_constant_types(cs@.subrange(0, k as int)),
        decreases cs.len() - k,
    {
        let ghost prefix = cs@.subrange(0, k + 1);
        assert(prefix.subrange(0, prefix.len() - 1) == cs@.subrange(0, k as int));
        assert(prefix[prefix.len() - 1] == cs@[k as int]);
        let ghost old_table = table@;
        if !is_predefined_constant(cs[k].name.as_str()) {
            table.push((cs[k].name.clone(), cs[k].ty.clone()));
            proof {
                lemma_typed_views_push(old_table, table@.last());
            }
            assert(typed_view(table@.last()) == (cs@[k as int].name@, cs@[k as int].ty));
        }
        assert(typed_views(table@) =~= first + program_constant_types(prefix));
        k += 1;
    }
    assert(cs@.subrange(0, k as int) == cs@);
    table
}



proof fn lemma_named_values_push(t: Seq<(String, i32)>, x: (String, i32))
    ensures
        named_values(t.push(x)) == named_values(t).push((x.0@, x.1)),
{
    assert(named_values(t.push(x)) =~= named_values(t).push((x.0@, x.1)));
}

/// The predefined constants' values for the default framebuffer: each key's identifier, then
/// the width and the height.
pub open spec fn predefined_values_spec() -> Seq<(Seq<char>, i32)> {
    Seq::new(
        (KEY_COUNT + 2) as nat,
        |i: int|
            (
                predefined_names()[i],
                if i < KEY_COUNT {
                    i as i32
                } else if i == KEY_COUNT {
                    320i32
                } else {
                    180i32
                },
            ),
    )
}

/// The values of the predefined constants for the default framebuffer.
pub fn predefined_values() -> (values: Vec<(String, i32)>)
    ensures
        named_values(values@) == predefined_values_spec(),
{
    let predefined = constants(Resolution::default());
    let mut values: Vec<(String, i32)> = Vec::new();
    let mut i: usize = 0;
    while i < predefined.len()
        invariant
            i <= predefined@.len(),
            predefined@.len() == KEY_COUNT + 2,
            forall|j: int|
                0 <= j < KEY_COUNT ==> (#[trigger] predefined@[j]).name@ == predefined_names()[j] && predefined@[j].value == j,
            predefined@[KEY_COUNT as int].name@ == predefined_names()[KEY_COUNT as int],
            predefined@[KEY_COUNT as int].value == 320,
            predefined@[KEY_COUNT + 1].name@ == predefined_names()[KEY_COUNT + 1],
            predefined@[KEY_COUNT + 1].value == 180,
            named_values(values@) == predefined_values_spec().subrange(0, i as int),
        decreases predefined.len() - i,
    {
        let ghost old_values = values@;
        values.push((owned(predefined[i].name), predefined[i].value));
        proof {
            lemma_named_values_push(old_values, values@.last());
        }
        assert((values@.last().0@, values@.last().1) == predefined_values_spec()[i as int]);
        assert(named_values(values@) =~= predefined_values_spec().subrange(0, i + 1));
        i += 1;
    }
    assert(predefined_values_spec().subrange(0, i as int) == predefined_values_spec());
    values
}

// ---------------------------------------------------------------------------------------------
// Initializers

/// What checking an initializer against its declared type reports.
pub open spec fn initializer_spec(env: Env, what: Seq<char>, name: Seq<char>, ty: ValueType, init: crate::ast::Expr, description: Seq<char>) -> Findings {
    let (a, f) = require_value_as_spec(env, seq![seq![]], init, ty, description);
    f + match a {
        Some(actual) => if same(actual, ty) {
            seq![]
        } else {
            one(
                what + " `"@ + name + "` has type `"@ + value_type_name(ty) + "`, but its initializer has type `"@
                    + value_type_name(actual) + "`"@,
                init.span,
            )
        },
        None => seq![],
    }
}

/// Checks an initializer against its declared type, in a body with no locals.
fn check_initializer(
    env: &Env,
    what: &str,
    name: &str,
    ty: &ValueType,
    init: &crate::ast::Expr,
    description: &str,
    diagnostics: &mut Vec<Diagnostic>,
)
    ensures
        findings(final(diagnostics)@) == findings(old(diagnostics)@) + initializer_spec(*env, what@, name@, *ty, *init, description@),
{
    let ghost before = findings(diagnostics@);
    let mut scopes: Vec<Vec<(String, Binding)>> = Vec::new();
    scopes.push(Vec::new());
    assert(scopes_view(scopes@) =~= seq![Seq::<(String, Binding)>::empty()]);
    let a = require_value_as(env, &scopes, init, ty, description, diagnostics);
    match a {
        Some(actual) => {
            if !same_type(&actual, ty) {
                let declared = ty.name();
                let found = actual.name();
                let mut message = owned(what);
                push_str(&mut message, " `");
                push_str(&mut message, name);
                push_str(&mut message, "` has type `");
                push_str(&mut message, declared.as_str());
                push_str(&mut message, "`, but its initializer has type `");
                push_str(&mut message, found.as_str());
                push_str(&mut message, "`");
                report(diagnostics, message, init.span);
            }
        },
        None => {},
    }
    assert(findings(diagnostics@) =~= before + initializer_spec(*env, what@, name@, *ty, *init, description@));
}

/// Whether a constant declaration cannot be evaluated: its initializer reads a mutable global
/// or calls a function, or its type cannot be laid out.
pub open spec fn invalid_constant(program: Program, c: Constant) -> bool {
    compile_time_findings(c.init, program.globals@, "constant expressions"@).len() > 0 || resolution_fails(
        c.ty,
        program.structs@,
    )
}

/// Whether one of the first `n` constants is named `name` and cannot be evaluated.
pub open spec fn invalid_among(program: Program, n: int, name: Seq<char>) -> bool {
    exists|j: int|
        0 <= j < n && j < program.constants@.len() && (#[trigger] program.constants@[j]).name@ == name
            && invalid_constant(program, program.constants@[j])
}

/// Whether some constant named `name` cannot be evaluated.
pub open spec fn invalid_constant_name(program: Program, name: Seq<char>) -> bool {
    invalid_among(program, program.constants@.len() as int, name)
}

/// Whether `name` is among `names`.
pub open spec fn has_name(names: Seq<String>, name: Seq<char>) -> bool {
    exists|j: int| 0 <= j < names.len() && (#[trigger] names[j])@ == name
}

/// Whether a global declaration cannot be evaluated.
pub open spec fn invalid_global(program: Program, g: Global) -> bool {
    resolution_fails(g.ty, program.structs@) || compile_time_findings(g.init, program.globals@, "global initializers"@).len() > 0
}

/// What checking the constant initializers reports, skipping constants whose name an invalid
/// constant has.
pub open spec fn constant_initializer_findings(env: Env, program: Program, cs: Seq<Constant>) -> Findings
    decreases cs.len(),
{
    if cs.len() == 0 {
        seq![]
    } else {
        let c = cs[cs.len() - 1];
        constant_initializer_findings(env, program, cs.subrange(0, cs.len() - 1)) + if invalid_constant_name(program, c.name@) {
            seq![]
        } else {
            initializer_spec(env, "constant"@, c.name@, c.ty, c.init, "constant initializer"@)
        }
    }
}

/// What checking the global initializers reports, skipping globals that cannot be evaluated.
pub open spec fn global_initializer_findings(env: Env, program: Program, gs: Seq<Global>) -> Findings
    decreases gs.len(),
{
    if gs.len() == 0 {
        seq![]
    } else {
        let g = gs[gs.len() - 1];
        global_initializer_findings(env, program, gs.subrange(0, gs.len() - 1)) + if invalid_global(program, g) {
            seq![]
        } else {
            initializer_spec(env, "global"@, g.name@, g.ty, g.init, "global initializer"@)
        }
    }
}

/// What checking a program's initializers reports: the constants', then the globals'.
pub open spec fn initializers_findings(env: Env, program: Program) -> Findings {
    constant_initializer_findings(env, program, program.constants@) + global_initializer_findings(
        env,
        program,
        program.globals@,
    )
}

/// Whether `name` is among `names`.
pub(crate) fn listed_name(names: &Vec<String>, name: &str) -> (found: bool)
    ensures
        found == has_name(names@, name@),
{
    let mut k: usize = 0;
    while k < names.len()
        invariant
            k <= names@.len(),
            forall|j: int| 0 <= j < k ==> (#[trigger] names@[j])@ != name@,
        decreases names.len() - k,
    {
        if str_equal(names[k].as_str(), name) {
            return true;
        }
        k += 1;
    }
    false
}

/// The names of the constants that cannot be evaluated: those whose initializer is not a
/// compile-time expression or whose type cannot be laid out.
pub(crate) fn invalid_constant_names(program: &Program, analysis: &StructTypeAnalysis) -> (invalid: Vec<String>)
    requires
        forall|i: int| 0 <= i < crate::sema::struct_table(program.structs@).len() ==> (analysis.fails(#[trigger] crate::sema::struct_table(program.structs@)[i].name@) <==> crate::sema::length_failure(crate::sema::struct_table(program.structs@), i)),
        forall|name: Seq<char>| analysis.fails(name) ==> crate::sema::declares(program.structs@, name),
    ensures
        forall|name: Seq<char>| #[trigger] has_name(invalid@, name) <==> invalid_constant_name(*program, name),
{
    let mut scratch: Vec<Diagnostic> = Vec::new();
    let cs = &program.constants;
    let mut invalid: Vec<String> = Vec::new();
    let mut k: usize = 0;
    while k < cs.len()
        invariant
            k <= cs@.len(),
            forall|i: int| 0 <= i < crate::sema::struct_table(program.structs@).len() ==> (analysis.fails(#[trigger] crate::sema::struct_table(program.structs@)[i].name@) <==> crate::sema::length_failure(crate::sema::struct_table(program.structs@), i)),
            forall|name: Seq<char>| analysis.fails(name) ==> crate::sema::declares(program.structs@, name),
            cs@ == program.constants@,
            forall|name: Seq<char>| #[trigger] has_name(invalid@, name) <==> invalid_among(*program, k as int, name),
        decreases cs.len() - k,
    {
        let ghost old_invalid = invalid@;
        let valid = validate_compile_time_structure(&cs[k].init, &program.globals, "constant expressions", &mut scratch);
        let failed = fails_to_resolve(&cs[k].ty, &program.structs, analysis);
        if !valid || failed {
            invalid.push(cs[k].name.clone());
        }
        proof {
            let kk = k as int;
            assert(invalid_constant(*program, program.constants@[kk]) == (!valid || failed));
            assert forall|name: Seq<char>| #[trigger] has_name(invalid@, name) <==> invalid_among(*program, kk + 1, name) by {
                if invalid_among(*program, kk + 1, name) {
                    let j = choose|j: int|
                        0 <= j < kk + 1 && j < program.constants@.len() && (#[trigger] program.constants@[j]).name@ == name
                            && invalid_constant(*program, program.constants@[j]);
                    if j < kk {
                        assert(invalid_among(*program, kk, name));
                        assert(has_name(old_invalid, name));
                        let i = choose|i: int| 0 <= i < old_invalid.len() && (#[trigger] old_invalid[i])@ == name;
                        assert(invalid@[i] == old_invalid[i]);
                    } else {
                        assert(invalid@[invalid@.len() - 1]@ == name);
                    }
                }
                if has_name(invalid@, name) {
                    let i = choose|i: int| 0 <= i < invalid@.len() && (#[trigger] invalid@[i])@ == name;
                    if i < old_invalid.len() {
                        assert(old_invalid[i] == invalid@[i]);
                        assert(has_name(old_invalid, name));
                        assert(invalid_among(*program, kk, name));
                        let j = choose|j: int|
                            0 <= j < kk && j < program.constants@.len() && (#[trigger] program.constants@[j]).name@ == name
                                && invalid_constant(*program, program.constants@[j]);
                        assert(program.constants@[j].name@ == name);
                    } else {
                        assert(program.constants@[kk].name@ == name);
                    }
                }
            }
        }
        k += 1;
    }
    invalid
}

/// Whether a global's initializer cannot be evaluated.
pub(crate) fn global_is_invalid(program: &Program, g: &Global, analysis: &StructTypeAnalysis) -> (invalid: bool)
    requires
        forall|i: int| 0 <= i < crate::sema::struct_table(program.structs@).len() ==> (analysis.fails(#[trigger] crate::sema::struct_table(program.structs@)[i].name@) <==> crate::sema::length_failure(crate::sema::struct_table(program.structs@), i)),
        forall|name: Seq<char>| analysis.fails(name) ==> crate::sema::declares(program.structs@, name),
    ensures
        invalid == invalid_global(*program, *g),
{
    if fails_to_resolve(&g.ty, &program.structs, analysis) {
        return true;
    }
    let mut scratch: Vec<Diagnostic> = Vec::new();
    !validate_compile_time_structure(&g.init, &program.globals, "global initializers", &mut scratch)
}

/// Checks each constant and global initializer against its declared type, skipping those that
/// cannot be evaluated, as `initializers_findings` says.
pub fn check_initializers(env: &Env, program: &Program, diagnostics: &mut Vec<Diagnostic>)
    ensures
        findings(final(diagnostics)@) == findings(old(diagnostics)@) + initializers_findings(*env, *program),
{
    let ghost before = findings(diagnostics@);
    let mut scratch: Vec<Diagnostic> = Vec::new();
    let analysis = StructTypeAnalysis::new(&program.structs, &mut scratch);
    let cs = &program.constants;
    let invalid = invalid_constant_names(program, &analysis);
    let mut k: usize = 0;
    while k < cs.len()
        invariant
            k <= cs@.len(),
            forall|name: Seq<char>| #[trigger] has_name(invalid@, name) <==> invalid_constant_name(*program, name),
            findings(diagnostics@) == before + constant_initializer_findings(*env, *program, cs@.subrange(0, k as int)),
        decreases cs.len() - k,
    {
        let ghost prefix = cs@.subrange(0, k + 1);
        assert(prefix.subrange(0, prefix.len() - 1) == cs@.subrange(0, k as int));
        assert(prefix[prefix.len() - 1] == cs@[k as int]);
        let c = &cs[k];
        if !listed_name(&invalid, c.name.as_str()) {
            check_initializer(env, "constant", c.name.as_str(), &c.ty, &c.init, "constant initializer", diagnostics);
        }
        assert(findings(diagnostics@) =~= before + constant_initializer_findings(*env, *program, prefix));
        k += 1;
    }
    assert(cs@.subrange(0, k as int) == cs@);
    let ghost after_constants = findings(diagnostics@);
    let gs = &program.globals;
    let mut k: usize = 0;
    while k < gs.len()
        invariant
            k <= gs@.len(),
            forall|i: int| 0 <= i < crate::sema::struct_table(program.structs@).len() ==> (analysis.fails(#[trigger] crate::sema::struct_table(program.structs@)[i].name@) <==> crate::sema::length_failure(crate::sema::struct_table(program.structs@), i)),
            forall|name: Seq<char>| analysis.fails(name) ==> crate::sema::declares(program.structs@, name),
            gs@ == program.globals@,
            findings(diagnostics@) == after_constants + global_initializer_findings(*env, *program, gs@.subrange(0, k as int)),
        decreases gs.len() - k,
    {
        let ghost prefix = gs@.subrange(0, k + 1);
        assert(prefix.subrange(0, prefix.len() - 1) == gs@.subrange(0, k as int));
        assert(prefix[prefix.len() - 1] == gs@[k as int]);
        let g = &gs[k];
        let failed = fails_to_resolve(&g.ty, &program.structs, &analysis);
        if !failed {
            let valid = validate_compile_time_structure(&g.init, gs, "global initializers", &mut scratch);
            if valid {
                check_initializer(env, "global", g.name.as_str(), &g.ty, &g.init, "global initializer", diagnostics);
            }
        }
        assert(findings(diagnostics@) =~= after_constants + global_initializer_findings(*env, *program, prefix));
        k += 1;
    }
    assert(gs@.subrange(0, k as int) == gs@);
    assert(findings(diagnostics@) =~= before + initializers_findings(*env, *program));
}

// ---------------------------------------------------------------------------------------------
// Function bodies

/// What checking every function reports, in program order: for each, its `update` signature,
/// then its body.
pub open spec fn functions_findings(env: Env, fs: Seq<Function>) -> Findings
    decreases fs.len(),
{
    if fs.len() == 0 {
        seq![]
    } else {
        functions_findings(env, fs.subrange(0, fs.len() - 1)) + update_finding(fs[fs.len() - 1]) + function_spec(
            env,
            fs[fs.len() - 1],
        )
    }
}

/// Checks every function of a program, in order: an `update`'s parameter list, then the body.
pub fn check_functions(env: &Env, program: &Program, diagnostics: &mut Vec<Diagnostic>)
    ensures
        findings(final(diagnostics)@) == findings(old(diagnostics)@) + functions_findings(*env, program.functions@),
{
    let fs = &program.functions;
    let mut k: usize = 0;
    while k < fs.len()
        invariant
            k <= fs@.len(),
            findings(diagnostics@) == findings(old(diagnostics)@) + functions_findings(*env, fs@.subrange(0, k as int)),
        decreases fs.len() - k,
    {
        let ghost prefix = fs@.subrange(0, k + 1);
        assert(prefix.subrange(0, prefix.len() - 1) == fs@.subrange(0, k as int));
        assert(prefix[prefix.len() - 1] == fs@[k as int]);
        check_update_signature(&fs[k], diagnostics);
        check_function(env, &fs[k], diagnostics);
        assert(findings(diagnostics@) =~= findings(old(diagnostics)@) + functions_findings(*env, prefix));
        k += 1;
    }
    assert(fs@.subrange(0, k as int) == fs@);
}

// ---------------------------------------------------------------------------------------------
// A whole program

/// Everything checking a program finds, in order: its declarations, its initializers (seeing
/// `initializers`), what evaluating its constants and globals finds, then its function bodies
/// (seeing `bodies`).
pub open spec fn program_findings(initializers: Env, bodies: Env, program: Program) -> Findings {
    declaration_findings(program) + initializers_findings(initializers, program) + evaluation_findings(program)
        + functions_findings(bodies, program.functions@)
}

/// Checks a program after what `earlier` already found: its initializers see the tables of
/// `initializers`, its function bodies those of `bodies`. Each distinct finding is reported
/// once, at its first occurrence; the program passes exactly when nothing is found, and then
/// comes with the values its constants and globals start with. Initializers whose values rest
/// on `f32` arithmetic are left undetermined and report nothing here;
/// `undetermined_initializers` lists them.
pub fn check(program: &Program, initializers: &Env, bodies: &Env, earlier: Vec<Diagnostic>) -> (result: Result<InitialValues, Vec<Diagnostic>>)
    ensures
        match result {
            Ok(values) => findings(earlier@) + program_findings(*initializers, *bodies, *program) == Seq::<(Seq<char>, Span)>::empty()
                && initial_values_of(*program, values),
            Err(ds) => ds@.len() > 0 && findings(ds@) == first_occurrences(
                findings(earlier@) + program_findings(*initializers, *bodies, *program),
            ),
        },
{
    let ghost prior = findings(earlier@);
    let mut diagnostics = earlier;
    collect_declaration_findings(program, &mut diagnostics);
    check_initializers(initializers, program, &mut diagnostics);
    let values = check_evaluation(program, &mut diagnostics);
    check_functions(bodies, program, &mut diagnostics);
    assert(findings(diagnostics@) =~= prior + program_findings(*initializers, *bodies, *program));
    deduplicate_diagnostics(&mut diagnostics);
    if diagnostics.len() == 0 {
        proof {
            let all = prior + program_findings(*initializers, *bodies, *program);
            if all.len() > 0 {
                lemma_first_occurrences_contains(all, all[0]);
                assert(all.contains(all[0]));
            }
            assert(all =~= Seq::<(Seq<char>, Span)>::empty());
        }
        Ok(values)
    } else {
        Err(diagnostics)
    }
}

} // verus!
