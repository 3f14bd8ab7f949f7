//! The checks on top-level declarations: duplicate and conflicting names, duplicate fields, and
//! the three entry points every game declares.
use vstd::prelude::*;

use crate::ast::{Constant, Function, FunctionKind, Global, Program, StructDecl, StructField, ValueType};
use crate::builtins::{builtin_signature, catalog_key, constants, functions, predefined_name, BUILTIN_COUNT, is_predefined_constant};
use crate::diagnostic::{Diagnostic, Span};
use crate::keyboard::{key_name, KEY_COUNT};
use crate::names::NameTable;
use crate::resolution::Resolution;
use crate::ast::{has_invalid_length, innermost_struct};
use crate::sema::{
    compile_time_findings, declares, deduplicate_diagnostics, finding, findings, first_occurrences,
    length_failure, lemma_struct_table, program_types, recursion_findings, struct_table,
    unknown_findings, validate_compile_time_structure, validate_declared_types, StructTypeAnalysis,
};
use crate::text::{owned, push_str, str_equal};

verus! {

// ---------------------------------------------------------------------------------------------
// The names a program starts with

/// Every runtime function's name, in table order.
pub open spec fn builtin_names() -> Seq<Seq<char>> {
    Seq::new(BUILTIN_COUNT as nat, |i: int| builtin_signature(i).0)
}

/// Every predefined constant's name: the keys in identifier order, then the dimensions.
pub open spec fn predefined_names() -> Seq<Seq<char>> {
    Seq::new(KEY_COUNT as nat, |i: int| key_name(catalog_key(i))) + seq![
        "FRAMEBUFFER_WIDTH"@,
        "FRAMEBUFFER_HEIGHT"@,
    ]
}

/// `names` recorded one after another as declared by `kind` items.
pub open spec fn insert_all(m: Map<Seq<char>, Seq<char>>, names: Seq<Seq<char>>, kind: Seq<char>) -> Map<Seq<char>, Seq<char>>
    decreases names.len(),
{
    if names.len() == 0 {
        m
    } else {
        insert_all(m, names.drop_last(), kind).insert(names.last(), kind)
    }
}

/// The table before any declaration: runtime functions, then predefined constants.
pub open spec fn initial_names() -> Map<Seq<char>, Seq<char>> {
    insert_all(insert_all(Map::empty(), builtin_names(), "function"@), predefined_names(), "predefined constant"@)
}

/// The starting table of top-level names.
fn initial_table() -> (table: NameTable)
    ensures
        table@ == initial_names(),
{
    let mut table = NameTable::new();
    let runtime = functions();
    let mut i: usize = 0;
    while i < runtime.len()
        invariant
            i <= runtime@.len(),
            runtime@.len() == BUILTIN_COUNT,
            forall|j: int| 0 <= j < BUILTIN_COUNT ==> (#[trigger] runtime@[j]).name@ == builtin_signature(j).0,
            table@ == insert_all(Map::empty(), builtin_names().subrange(0, i as int), "function"@),
        decreases runtime.len() - i,
    {
        assert(builtin_names().subrange(0, i + 1).drop_last() == builtin_names().subrange(0, i as int));
        table.insert(runtime[i].name, "function");
        proof {
            reveal_strlit("function");
        }
        i += 1;
    }
    assert(builtin_names().subrange(0, i as int) == builtin_names());
    let predefined = constants(Resolution::default());
    let ghost base = table@;
    let mut k: usize = 0;
    while k < predefined.len()
        invariant
            k <= predefined@.len(),
            predefined@.len() == KEY_COUNT + 2,
            forall|j: int| 0 <= j < predefined@.len() ==> (#[trigger] predefined@[j]).name@ == predefined_names()[j],
            base == insert_all(Map::empty(), builtin_names(), "function"@),
            table@ == insert_all(base, predefined_names().subrange(0, k as int), "predefined constant"@),
        decreases predefined.len() - k,
    {
        assert(predefined_names().subrange(0, k + 1).drop_last() == predefined_names().subrange(0, k as int));
        table.insert(predefined[k].name, "predefined constant");
        proof {
            reveal_strlit("predefined constant");
        }
        k += 1;
    }
    assert(predefined_names().subrange(0, k as int) == predefined_names());
    table
}

// ---------------------------------------------------------------------------------------------
// Structs

/// The findings for fields that repeat an earlier field's name, in field order.
pub open spec fn field_duplicates(fields: Seq<StructField>, owner: Seq<char>) -> Seq<(Seq<char>, Span)>
    decreases fields.len(),
{
    if fields.len() == 0 {
        seq![]
    } else {
        let last = fields.last();
        field_duplicates(fields.drop_last(), owner) + if exists|j: int| 0 <= j < fields.len() - 1 && (#[trigger] fields[j]).name@ == last.name@ {
            seq![("field `"@ + last.name@ + "` is declared more than once in struct `"@ + owner + "`"@, last.span)]
        } else {
            seq![]
        }
    }
}

/// What the struct declarations leave: the name table, the struct names, and the findings.
pub open spec fn struct_pass(decls: Seq<StructDecl>, start: Map<Seq<char>, Seq<char>>) -> (Map<Seq<char>, Seq<char>>, Set<Seq<char>>, Seq<(Seq<char>, Span)>)
    decreases decls.len(),
{
    if decls.len() == 0 {
        (start, Set::empty(), seq![])
    } else {
        let (names, declared, found) = struct_pass(decls.drop_last(), start);
        let d = decls.last();
        let n = d.name@;
        let (names2, found2) = if declared.contains(n) {
            (names, found.push((struct_duplicate_message(n), d.span)))
        } else if names.contains_key(n) {
            (names.insert(n, "struct"@), found.push((conflict_message("struct"@, n, names[n]), d.span)))
        } else {
            (names.insert(n, "struct"@), found)
        };
        (names2, declared.insert(n), found2 + field_duplicates(d.fields@, n))
    }
}

/// The message for a struct name declared twice.
pub open spec fn struct_duplicate_message(name: Seq<char>) -> Seq<char> {
    "struct `"@ + name + "` is declared more than once"@
}

/// The message for an item whose name an earlier item of another kind has.
pub open spec fn conflict_message(item: Seq<char>, name: Seq<char>, existing: Seq<char>) -> Seq<char> {
    item + " `"@ + name + "` conflicts with an existing "@ + existing
}

/// Whether some declaration before position `n` has this name.
pub open spec fn declared_before(decls: Seq<StructDecl>, n: int, name: Seq<char>) -> bool {
    exists|j: int| 0 <= j < n && (#[trigger] decls[j]).name@ == name
}

proof fn lemma_struct_pass_declared(decls: Seq<StructDecl>, start: Map<Seq<char>, Seq<char>>, name: Seq<char>)
    ensures
        struct_pass(decls, start).1.contains(name) <==> declared_before(decls, decls.len() as int, name),
    decreases decls.len(),
{
    if decls.len() > 0 {
        lemma_struct_pass_declared(decls.drop_last(), start, name);
        if declared_before(decls, decls.len() as int, name) {
            let j = choose|j: int| 0 <= j < decls.len() && (#[trigger] decls[j]).name@ == name;
            if j < decls.len() - 1 {
                assert(decls.drop_last()[j].name@ == name);
            }
        }
        if declared_before(decls.drop_last(), decls.len() - 1, name) {
            let j = choose|j: int| 0 <= j < decls.len() - 1 && (#[trigger] decls.drop_last()[j]).name@ == name;
            assert(decls[j].name@ == name);
        }
    }
}

/// Appends the duplicate-field findings of one struct.
fn check_fields(decl: &StructDecl, diagnostics: &mut Vec<Diagnostic>)
    ensures
        findings(final(diagnostics)@) == findings(old(diagnostics)@) + field_duplicates(decl.fields@, decl.name@),
{
    let fields = &decl.fields;
    let mut k: usize = 0;
    while k < fields.len()
        invariant
            k <= fields@.len(),
            fields@ == decl.fields@,
            findings(diagnostics@) == findings(old(diagnostics)@) + field_duplicates(fields@.subrange(0, k as int), decl.name@),
        decreases fields.len() - k,
    {
        let ghost prefix = fields@.subrange(0, k + 1);
        assert(prefix.drop_last() == fields@.subrange(0, k as int));
        let mut repeated = false;
        let mut m: usize = 0;
        while m < k
            invariant
                m <= k < fields@.len(),
                repeated <==> exists|j: int| 0 <= j < m && (#[trigger] fields@[j]).name@ == fields@[k as int].name@,
            decreases k - m,
        {
            if str_equal(fields[m].name.as_str(), fields[k].name.as_str()) {
                repeated = true;
            }
            m += 1;
        }
        proof {
            assert(repeated <==> exists|j: int| 0 <= j < prefix.len() - 1 && (#[trigger] prefix[j]).name@ == prefix.last().name@) by {
                if repeated {
                    let j = choose|j: int| 0 <= j < k && (#[trigger] fields@[j]).name@ == fields@[k as int].name@;
                    assert(prefix[j] == fields@[j]);
                }
                if exists|j: int| 0 <= j < prefix.len() - 1 && (#[trigger] prefix[j]).name@ == prefix.last().name@ {
                    let j = choose|j: int| 0 <= j < prefix.len() - 1 && (#[trigger] prefix[j]).name@ == prefix.last().name@;
                    assert(fields@[j] == prefix[j]);
                }
            }
        }
        let ghost before = findings(diagnostics@);
        if repeated {
            let mut message = owned("field `");
            push_str(&mut message, fields[k].name.as_str());
            push_str(&mut message, "` is declared more than once in struct `");
            push_str(&mut message, decl.name.as_str());
            push_str(&mut message, "`");
            proof {
                reveal_strlit("field `");
                reveal_strlit("` is declared more than once in struct `");
                reveal_strlit("`");
            }
            diagnostics.push(Diagnostic::new(message, fields[k].span));
            assert(findings(diagnostics@) =~= before.push(finding(diagnostics@.last())));
        }
        assert(findings(diagnostics@) =~= findings(old(diagnostics)@) + field_duplicates(prefix, decl.name@));
        k += 1;
    }
    assert(fields@.subrange(0, k as int) == fields@);
}

/// Records each struct name, reporting repeats, names of other kinds, and repeated fields.
fn check_structs(decls: &Vec<StructDecl>, names: &mut NameTable, diagnostics: &mut Vec<Diagnostic>)
    ensures
        final(names)@ == struct_pass(decls@, old(names)@).0,
        findings(final(diagnostics)@) == findings(old(diagnostics)@) + struct_pass(decls@, old(names)@).2,
{
    let ghost start = names@;
    let mut i: usize = 0;
    while i < decls.len()
        invariant
            i <= decls@.len(),
            names@ == struct_pass(decls@.subrange(0, i as int), start).0,
            findings(diagnostics@) == findings(old(diagnostics)@) + struct_pass(decls@.subrange(0, i as int), start).2,
        decreases decls.len() - i,
    {
        let ghost prefix = decls@.subrange(0, i + 1);
        assert(prefix.drop_last() == decls@.subrange(0, i as int));
        let decl = &decls[i];
        let mut duplicate = false;
        let mut m: usize = 0;
        while m < i
            invariant
                m <= i < decls@.len(),
                duplicate <==> exists|j: int| 0 <= j < m && (#[trigger] decls@[j]).name@ == decls@[i as int].name@,
            decreases i - m,
        {
            if str_equal(decls[m].name.as_str(), decls[i].name.as_str()) {
                duplicate = true;
            }
            m += 1;
        }
        proof {
            lemma_struct_pass_declared(decls@.subrange(0, i as int), start, decl.name@);
            assert(duplicate <==> declared_before(decls@.subrange(0, i as int), i as int, decl.name@)) by {
                if duplicate {
                    let j = choose|j: int| 0 <= j < i && (#[trigger] decls@[j]).name@ == decls@[i as int].name@;
                    assert(decls@.subrange(0, i as int)[j] == decls@[j]);
                }
                if declared_before(decls@.subrange(0, i as int), i as int, decl.name@) {
                    let j = choose|j: int| 0 <= j < i && (#[trigger] decls@.subrange(0, i as int)[j]).name@ == decl.name@;
                    assert(decls@[j] == decls@.subrange(0, i as int)[j]);
                }
            }
        }
        let ghost before = findings(diagnostics@);
        if duplicate {
            let mut message = owned("struct `");
            push_str(&mut message, decl.name.as_str());
            push_str(&mut message, "` is declared more than once");
            proof {
                reveal_strlit("struct `");
                reveal_strlit("` is declared more than once");
            }
            diagnostics.push(Diagnostic::new(message, decl.span));
            assert(findings(diagnostics@) =~= before.push((struct_duplicate_message(decl.name@), decl.span)));
        } else {
            match names.insert(decl.name.as_str(), "struct") {
                Some(existing) => {
                    let mut message = owned("struct");
                    push_str(&mut message, " `");
                    push_str(&mut message, decl.name.as_str());
                    push_str(&mut message, "` conflicts with an existing ");
                    push_str(&mut message, existing);
                    proof {
                        reveal_strlit("struct `");
                        reveal_strlit("` conflicts with an existing ");
                        reveal_strlit("struct");
                        reveal_strlit(" `");
                        assert(message@ == conflict_message("struct"@, decl.name@, existing@));
                    }
                    diagnostics.push(Diagnostic::new(message, decl.span));
                    assert(findings(diagnostics@) =~= before.push((conflict_message("struct"@, decl.name@, existing@), decl.span)));
                },
                None => {},
            }
        }
        check_fields(decl, diagnostics);
        proof {
            reveal_strlit("struct");
        }
        i += 1;
    }
    assert(decls@.subrange(0, i as int) == decls@);
}

// ---------------------------------------------------------------------------------------------
// Constants, globals and functions

/// Whether an item among the first `n` has this name.
pub open spec fn named_before<T>(items: Seq<T>, name_of: spec_fn(T) -> Seq<char>, n: int, name: Seq<char>) -> bool {
    exists|j: int| 0 <= j < n && name_of(#[trigger] items[j]) == name
}

/// What the constant declarations leave: the name table and the findings. A constant that
/// takes a predefined name is reported and otherwise ignored.
pub open spec fn constant_pass(cs: Seq<Constant>, start: Map<Seq<char>, Seq<char>>) -> (Map<Seq<char>, Seq<char>>, Seq<(Seq<char>, Span)>)
    decreases cs.len(),
{
    if cs.len() == 0 {
        (start, seq![])
    } else {
        let (names, found) = constant_pass(cs.drop_last(), start);
        let c = cs.last();
        let n = c.name@;
        if predefined_name(n) {
            (names, found.push(("constant `"@ + n + "` conflicts with a predefined key constant"@, c.span)))
        } else {
            let repeated = exists|j: int| 0 <= j < cs.len() - 1 && !predefined_name((#[trigger] cs[j]).name@) && cs[j].name@ == n;
            let found1 = if repeated {
                found.push(("constant `"@ + n + "` is declared more than once"@, c.span))
            } else {
                found
            };
            let found2 = if names.contains_key(n) {
                found1.push((conflict_message("constant"@, n, names[n]), c.span))
            } else {
                found1
            };
            (names.insert(n, "constant"@), found2)
        }
    }
}

/// What the global declarations leave: the name table and the findings.
pub open spec fn global_pass(gs: Seq<Global>, start: Map<Seq<char>, Seq<char>>) -> (Map<Seq<char>, Seq<char>>, Seq<(Seq<char>, Span)>)
    decreases gs.len(),
{
    if gs.len() == 0 {
        (start, seq![])
    } else {
        let (names, found) = global_pass(gs.drop_last(), start);
        let g = gs.last();
        let n = g.name@;
        let repeated = exists|j: int| 0 <= j < gs.len() - 1 && (#[trigger] gs[j]).name@ == n;
        let found1 = if repeated {
            found.push(("global `"@ + n + "` is declared more than once"@, g.span))
        } else {
            found
        };
        let found2 = if names.contains_key(n) {
            found1.push((conflict_message("global"@, n, names[n]), g.span))
        } else {
            found1
        };
        (names.insert(n, "global variable"@), found2)
    }
}

/// What the function declarations leave: the name table and the findings. Only named
/// functions take names; each must differ from every runtime and earlier named function, and
/// from every other kind of item.
pub open spec fn function_pass(fs: Seq<Function>, start: Map<Seq<char>, Seq<char>>) -> (Map<Seq<char>, Seq<char>>, Seq<(Seq<char>, Span)>)
    decreases fs.len(),
{
    if fs.len() == 0 {
        (start, seq![])
    } else {
        let (names, found) = function_pass(fs.drop_last(), start);
        let f = fs.last();
        let n = f.name@;
        if f.kind != FunctionKind::Named {
            (names, found)
        } else {
            let taken = builtin_names().contains(n) || exists|j: int|
                0 <= j < fs.len() - 1 && (#[trigger] fs[j]).kind == FunctionKind::Named && fs[j].name@ == n;
            let found1 = if taken {
                found.push(("function `"@ + n + "` conflicts with an existing function"@, f.span))
            } else {
                found
            };
            let found2 = if names.contains_key(n) && names[n] != "function"@ {
                found1.push((conflict_message("function"@, n, names[n]), f.span))
            } else {
                found1
            };
            (names.insert(n, "function"@), found2)
        }
    }
}

/// Reports each constant that takes a predefined name, repeats an earlier constant, or takes
/// another item's name.
fn check_constants(cs: &Vec<Constant>, names: &mut NameTable, diagnostics: &mut Vec<Diagnostic>)
    ensures
        final(names)@ == constant_pass(cs@, old(names)@).0,
        findings(final(diagnostics)@) == findings(old(diagnostics)@) + constant_pass(cs@, old(names)@).1,
{
    let ghost start = names@;
    let mut i: usize = 0;
    while i < cs.len()
        invariant
            i <= cs@.len(),
            names@ == constant_pass(cs@.subrange(0, i as int), start).0,
            findings(diagnostics@) == findings(old(diagnostics)@) + constant_pass(cs@.subrange(0, i as int), start).1,
        decreases cs.len() - i,
    {
        let ghost prefix = cs@.subrange(0, i + 1);
        assert(prefix.drop_last() == cs@.subrange(0, i as int));
        assert(prefix.last() == cs@[i as int]);
        let ghost before = findings(diagnostics@);
        let name = cs[i].name.as_str();
        if is_predefined_constant(name) {
            let mut message = owned("constant `");
            push_str(&mut message, name);
            push_str(&mut message, "` conflicts with a predefined key constant");
            proof {
                reveal_strlit("constant `");
                reveal_strlit("` conflicts with a predefined key constant");
            }
            diagnostics.push(Diagnostic::new(message, cs[i].span));
            let ghost entry = ("constant `"@ + cs@[i as int].name@ + "` conflicts with a predefined key constant"@, cs@[i as int].span);
            assert(findings(diagnostics@) =~= before.push(entry));
            assert(constant_pass(prefix, start).1 == constant_pass(cs@.subrange(0, i as int), start).1.push(entry));
            assert(constant_pass(prefix, start).0 == constant_pass(cs@.subrange(0, i as int), start).0);
            assert(findings(diagnostics@) =~= findings(old(diagnostics)@) + constant_pass(prefix, start).1);
        } else {
            let mut repeated = false;
            let mut m: usize = 0;
            while m < i
                invariant
                    m <= i < cs@.len(),
                    repeated <==> exists|j: int| 0 <= j < m && !predefined_name((#[trigger] cs@[j]).name@) && cs@[j].name@ == cs@[i as int].name@,
                decreases i - m,
            {
                if str_equal(cs[m].name.as_str(), cs[i].name.as_str()) && !is_predefined_constant(cs[m].name.as_str()) {
                    repeated = true;
                }
                m += 1;
            }
            proof {
                assert(repeated <==> exists|j: int| 0 <= j < prefix.len() - 1 && !predefined_name((#[trigger] prefix[j]).name@) && prefix[j].name@ == prefix.last().name@) by {
                    if repeated {
                        let j = choose|j: int| 0 <= j < i && !predefined_name((#[trigger] cs@[j]).name@) && cs@[j].name@ == cs@[i as int].name@;
                        assert(prefix[j] == cs@[j]);
                    }
                    if exists|j: int| 0 <= j < prefix.len() - 1 && !predefined_name((#[trigger] prefix[j]).name@) && prefix[j].name@ == prefix.last().name@ {
                        let j = choose|j: int| 0 <= j < prefix.len() - 1 && !predefined_name((#[trigger] prefix[j]).name@) && prefix[j].name@ == prefix.last().name@;
                        assert(cs@[j] == prefix[j]);
                    }
                }
            }
            let ghost base = constant_pass(cs@.subrange(0, i as int), start);
            let ghost n = cs@[i as int].name@;
            let ghost found1 = if repeated {
                base.1.push(("constant `"@ + n + "` is declared more than once"@, cs@[i as int].span))
            } else {
                base.1
            };
            let ghost found2 = if base.0.contains_key(n) {
                found1.push((conflict_message("constant"@, n, base.0[n]), cs@[i as int].span))
            } else {
                found1
            };
            assert(constant_pass(prefix, start).1 == found2);
            assert(constant_pass(prefix, start).0 == base.0.insert(n, "constant"@));
            let ghost at_start = findings(diagnostics@);
            if repeated {
                let mut message = owned("constant `");
                push_str(&mut message, name);
                push_str(&mut message, "` is declared more than once");
                proof {
                    reveal_strlit("constant `");
                    reveal_strlit("` is declared more than once");
                }
                diagnostics.push(Diagnostic::new(message, cs[i].span));
                assert(findings(diagnostics@) =~= at_start.push(("constant `"@ + n + "` is declared more than once"@, cs@[i as int].span)));
            }
            assert(findings(diagnostics@) =~= findings(old(diagnostics)@) + found1);
            let ghost middle = findings(diagnostics@);
            match names.insert(name, "constant") {
                Some(existing) => {
                    let mut message = owned("constant");
                    push_str(&mut message, " `");
                    push_str(&mut message, name);
                    push_str(&mut message, "` conflicts with an existing ");
                    push_str(&mut message, existing);
                    proof {
                        reveal_strlit("constant `");
                        reveal_strlit("` conflicts with an existing ");
                        reveal_strlit("constant");
                        reveal_strlit(" `");
                    }
                    diagnostics.push(Diagnostic::new(message, cs[i].span));
                    assert(findings(diagnostics@) =~= middle.push((conflict_message("constant"@, cs@[i as int].name@, existing@), cs@[i as int].span)));
                },
                None => {},
            }
            proof {
                reveal_strlit("constant");
            }
            assert(findings(diagnostics@) =~= findings(old(diagnostics)@) + found2);
        }
        i += 1;
    }
    assert(cs@.subrange(0, i as int) == cs@);
}

/// Reports each global that repeats an earlier global or takes another item's name.
fn check_globals(gs: &Vec<Global>, names: &mut NameTable, diagnostics: &mut Vec<Diagnostic>)
    ensures
        final(names)@ == global_pass(gs@, old(names)@).0,
        findings(final(diagnostics)@) == findings(old(diagnostics)@) + global_pass(gs@, old(names)@).1,
{
    let ghost start = names@;
    let mut i: usize = 0;
    while i < gs.len()
        invariant
            i <= gs@.len(),
            names@ == global_pass(gs@.subrange(0, i as int), start).0,
            findings(diagnostics@) == findings(old(diagnostics)@) + global_pass(gs@.subrange(0, i as int), start).1,
        decreases gs.len() - i,
    {
        let ghost prefix = gs@.subrange(0, i + 1);
        assert(prefix.drop_last() == gs@.subrange(0, i as int));
        assert(prefix.last() == gs@[i as int]);
        let name = gs[i].name.as_str();
        let mut repeated = false;
        let mut m: usize = 0;
        while m < i
            invariant
                m <= i < gs@.len(),
                repeated <==> exists|j: int| 0 <= j < m && (#[trigger] gs@[j]).name@ == gs@[i as int].name@,
            decreases i - m,
        {
            if str_equal(gs[m].name.as_str(), gs[i].name.as_str()) {
                repeated = true;
            }
            m += 1;
        }
        proof {
            assert(repeated <==> exists|j: int| 0 <= j < prefix.len() - 1 && (#[trigger] prefix[j]).name@ == prefix.last().name@) by {
                if repeated {
                    let j = choose|j: int| 0 <= j < i && (#[trigger] gs@[j]).name@ == gs@[i as int].name@;
                    assert(prefix[j] == gs@[j]);
                }
                if exists|j: int| 0 <= j < prefix.len() - 1 && (#[trigger] prefix[j]).name@ == prefix.last().name@ {
                    let j = choose|j: int| 0 <= j < prefix.len() - 1 && (#[trigger] prefix[j]).name@ == prefix.last().name@;
                    assert(gs@[j] == prefix[j]);
                }
            }
        }
        let ghost base = global_pass(gs@.subrange(0, i as int), start);
        let ghost n = gs@[i as int].name@;
        let ghost found1 = if repeated {
            base.1.push(("global `"@ + n + "` is declared more than once"@, gs@[i as int].span))
        } else {
            base.1
        };
        let ghost found2 = if base.0.contains_key(n) {
            found1.push((conflict_message("global"@, n, base.0[n]), gs@[i as int].span))
        } else {
            found1
        };
        assert(global_pass(prefix, start).1 == found2);
        assert(global_pass(prefix, start).0 == base.0.insert(n, "global variable"@));
        let ghost at_start = findings(diagnostics@);
        if repeated {
            let mut message = owned("global `");
            push_str(&mut message, name);
            push_str(&mut message, "` is declared more than once");
            proof {
                reveal_strlit("global `");
                reveal_strlit("` is declared more than once");
            }
            diagnostics.push(Diagnostic::new(message, gs[i].span));
            assert(findings(diagnostics@) =~= at_start.push(("global `"@ + n + "` is declared more than once"@, gs@[i as int].span)));
        }
        assert(findings(diagnostics@) =~= findings(old(diagnostics)@) + found1);
        let ghost middle = findings(diagnostics@);
        match names.insert(name, "global variable") {
            Some(existing) => {
                let mut message = owned("global");
                push_str(&mut message, " `");
                push_str(&mut message, name);
                push_str(&mut message, "` conflicts with an existing ");
                push_str(&mut message, existing);
                proof {
                    reveal_strlit("global `");
                    reveal_strlit("` conflicts with an existing ");
                    reveal_strlit("global");
                    reveal_strlit(" `");
                }
                diagnostics.push(Diagnostic::new(message, gs[i].span));
                assert(findings(diagnostics@) =~= middle.push((conflict_message("global"@, gs@[i as int].name@, existing@), gs@[i as int].span)));
            },
            None => {},
        }
        proof {
            reveal_strlit("global variable");
        }
        assert(findings(diagnostics@) =~= findings(old(diagnostics)@) + found2);
        i += 1;
    }
    assert(gs@.subrange(0, i as int) == gs@);
}

/// Whether a runtime function has this name.
fn is_runtime_function(name: &str) -> (found: bool)
    ensures
        found == builtin_names().contains(name@),
{
    let runtime = functions();
    let mut i: usize = 0;
    while i < runtime.len()
        invariant
            i <= runtime@.len(),
            runtime@.len() == BUILTIN_COUNT,
            forall|j: int| 0 <= j < BUILTIN_COUNT ==> (#[trigger] runtime@[j]).name@ == builtin_signature(j).0,
            forall|j: int| 0 <= j < i ==> builtin_signature(j).0 != name@,
        decreases runtime.len() - i,
    {
        if str_equal(runtime[i].name, name) {
            assert(builtin_names()[i as int] == name@);
            return true;
        }
        i += 1;
    }
    proof {
        if builtin_names().contains(name@) {
            let j = choose|j: int| 0 <= j < builtin_names().len() && builtin_names()[j] == name@;
            assert(builtin_signature(j).0 == name@);
        }
    }
    false
}

/// Reports each named function that repeats a runtime or earlier function, or takes the name of
/// another kind of item.
fn check_functions(fs: &Vec<Function>, names: &mut NameTable, diagnostics: &mut Vec<Diagnostic>)
    ensures
        final(names)@ == function_pass(fs@, old(names)@).0,
        findings(final(diagnostics)@) == findings(old(diagnostics)@) + function_pass(fs@, old(names)@).1,
{
    let ghost start = names@;
    let mut i: usize = 0;
    while i < fs.len()
        invariant
            i <= fs@.len(),
            names@ == function_pass(fs@.subrange(0, i as int), start).0,
            findings(diagnostics@) == findings(old(diagnostics)@) + function_pass(fs@.subrange(0, i as int), start).1,
        decreases fs.len() - i,
    {
        let ghost prefix = fs@.subrange(0, i + 1);
        assert(prefix.drop_last() == fs@.subrange(0, i as int));
        assert(prefix.last() == fs@[i as int]);
        if fs[i].kind == FunctionKind::Named {
            let name = fs[i].name.as_str();
            let mut taken = is_runtime_function(name);
            let mut m: usize = 0;
            while m < i
                invariant
                    m <= i < fs@.len(),
                    taken <==> (builtin_names().contains(fs@[i as int].name@) || exists|j: int| 0 <= j < m && (#[trigger] fs@[j]).kind == FunctionKind::Named && fs@[j].name@ == fs@[i as int].name@),
                decreases i - m,
            {
                if fs[m].kind == FunctionKind::Named && str_equal(fs[m].name.as_str(), fs[i].name.as_str()) {
                    taken = true;
                }
                m += 1;
            }
            let ghost base = function_pass(fs@.subrange(0, i as int), start);
            let ghost n = fs@[i as int].name@;
            proof {
                assert(taken <==> (builtin_names().contains(n) || exists|j: int| 0 <= j < prefix.len() - 1 && (#[trigger] prefix[j]).kind == FunctionKind::Named && prefix[j].name@ == n)) by {
                    if exists|j: int| 0 <= j < i && (#[trigger] fs@[j]).kind == FunctionKind::Named && fs@[j].name@ == n {
                        let j = choose|j: int| 0 <= j < i && (#[trigger] fs@[j]).kind == FunctionKind::Named && fs@[j].name@ == n;
                        assert(prefix[j] == fs@[j]);
                    }
                    if exists|j: int| 0 <= j < prefix.len() - 1 && (#[trigger] prefix[j]).kind == FunctionKind::Named && prefix[j].name@ == n {
                        let j = choose|j: int| 0 <= j < prefix.len() - 1 && (#[trigger] prefix[j]).kind == FunctionKind::Named && prefix[j].name@ == n;
                        assert(fs@[j] == prefix[j]);
                    }
                }
            }
            let ghost found1 = if taken {
                base.1.push(("function `"@ + n + "` conflicts with an existing function"@, fs@[i as int].span))
            } else {
                base.1
            };
            let ghost found2 = if base.0.contains_key(n) && base.0[n] != "function"@ {
                found1.push((conflict_message("function"@, n, base.0[n]), fs@[i as int].span))
            } else {
                found1
            };
            assert(function_pass(prefix, start).1 == found2);
            assert(function_pass(prefix, start).0 == base.0.insert(n, "function"@));
            let ghost at_start = findings(diagnostics@);
            if taken {
                let mut message = owned("function `");
                push_str(&mut message, name);
                push_str(&mut message, "` conflicts with an existing function");
                proof {
                    reveal_strlit("function `");
                    reveal_strlit("` conflicts with an existing function");
                }
                diagnostics.push(Diagnostic::new(message, fs[i].span));
                assert(findings(diagnostics@) =~= at_start.push(("function `"@ + n + "` conflicts with an existing function"@, fs@[i as int].span)));
            }
            assert(findings(diagnostics@) =~= findings(old(diagnostics)@) + found1);
            let ghost middle = findings(diagnostics@);
            match names.insert(name, "function") {
                Some(existing) => {
                    if !str_equal(existing, "function") {
                        let mut message = owned("function");
                        push_str(&mut message, " `");
                        push_str(&mut message, name);
                        push_str(&mut message, "` conflicts with an existing ");
                        push_str(&mut message, existing);
                        diagnostics.push(Diagnostic::new(message, fs[i].span));
                        assert(findings(diagnostics@) =~= middle.push((conflict_message("function"@, n, existing@), fs@[i as int].span)));
                    }
                },
                None => {},
            }
            proof {
                reveal_strlit("function");
            }
            assert(findings(diagnostics@) =~= findings(old(diagnostics)@) + found2);
        } else {
            assert(function_pass(prefix, start) == function_pass(fs@.subrange(0, i as int), start));
        }
        i += 1;
    }
    assert(fs@.subrange(0, i as int) == fs@);
}

// ---------------------------------------------------------------------------------------------
// Entry points

/// How many functions are of `kind`.
pub open spec fn count_kind(fs: Seq<Function>, kind: FunctionKind) -> nat
    decreases fs.len(),
{
    if fs.len() == 0 {
        0
    } else {
        count_kind(fs.drop_last(), kind) + if fs.last().kind == kind { 1nat } else { 0nat }
    }
}

/// The finding for one entry point that is missing or declared twice.
pub open spec fn entry_finding(program: Program, kind: FunctionKind, name: Seq<char>) -> Seq<(Seq<char>, Span)> {
    let count = count_kind(program.functions@, kind);
    if count == 0 {
        seq![("game is missing its `"@ + name + "` entry point"@, program.title_span)]
    } else if count > 1 {
        seq![("game declares `"@ + name + "` more than once"@, program.title_span)]
    } else {
        seq![]
    }
}

/// The entry-point findings: `start`, then `update`, then `draw`.
pub open spec fn entry_findings(program: Program) -> Seq<(Seq<char>, Span)> {
    entry_finding(program, FunctionKind::Start, "start"@) + entry_finding(program, FunctionKind::Update, "update"@)
        + entry_finding(program, FunctionKind::Draw, "draw"@)
}

/// How many functions are of `kind`, saturating at two.
fn count_entry(fs: &Vec<Function>, kind: FunctionKind) -> (count: usize)
    ensures
        count == if count_kind(fs@, kind) > 2 { 2 } else { count_kind(fs@, kind) },
{
    let mut count: usize = 0;
    let mut i: usize = 0;
    while i < fs.len()
        invariant
            i <= fs@.len(),
            count == if count_kind(fs@.subrange(0, i as int), kind) > 2 { 2 } else { count_kind(fs@.subrange(0, i as int), kind) },
        decreases fs.len() - i,
    {
        assert(fs@.subrange(0, i + 1).drop_last() == fs@.subrange(0, i as int));
        if fs[i].kind == kind && count < 2 {
            count += 1;
        }
        i += 1;
    }
    assert(fs@.subrange(0, i as int) == fs@);
    count
}

/// Appends the finding for one entry point.
fn check_entry(program: &Program, kind: FunctionKind, name: &str, diagnostics: &mut Vec<Diagnostic>)
    ensures
        findings(final(diagnostics)@) == findings(old(diagnostics)@) + entry_finding(*program, kind, name@),
{
    let count = count_entry(&program.functions, kind);
    if count == 0 {
        let mut message = owned("game is missing its `");
        push_str(&mut message, name);
        push_str(&mut message, "` entry point");
        proof {
            reveal_strlit("game is missing its `");
            reveal_strlit("` entry point");
        }
        diagnostics.push(Diagnostic::new(message, program.title_span));
    } else if count > 1 {
        let mut message = owned("game declares `");
        push_str(&mut message, name);
        push_str(&mut message, "` more than once");
        proof {
            reveal_strlit("game declares `");
            reveal_strlit("` more than once");
        }
        diagnostics.push(Diagnostic::new(message, program.title_span));
    }
    assert(findings(diagnostics@) =~= findings(old(diagnostics)@) + entry_finding(*program, kind, name@));
}

/// The message for an `update` whose parameter list is not one `f32`.
pub open spec fn update_message() -> Seq<char> {
    "`update` must take exactly one `f32` frame-delta parameter"@
}

/// The finding for a function that is `update` but whose parameters are not exactly one `f32`.
pub open spec fn update_finding(f: Function) -> Seq<(Seq<char>, Span)> {
    if f.kind == FunctionKind::Update && !(f.params@.len() == 1 && f.params@[0].ty == ValueType::F32) {
        seq![(update_message(), f.span)]
    } else {
        seq![]
    }
}

/// Reports `f` if it is an `update` whose parameter list is not one `f32`.
pub(crate) fn check_update_signature(f: &Function, diagnostics: &mut Vec<Diagnostic>)
    ensures
        findings(final(diagnostics)@) == findings(old(diagnostics)@) + update_finding(*f),
{
    let well_formed = f.params.len() == 1 && matches!(f.params[0].ty, ValueType::F32);
    assert(well_formed == (f.params@.len() == 1 && f.params@[0].ty == ValueType::F32));
    if f.kind == FunctionKind::Update && !well_formed {
        let message = owned("`update` must take exactly one `f32` frame-delta parameter");
        diagnostics.push(Diagnostic::new(message, f.span));
    }
    assert(findings(diagnostics@) =~= findings(old(diagnostics)@) + update_finding(*f));
}

// ---------------------------------------------------------------------------------------------
// All declaration checks

/// Whether values of `ty` cannot be laid out because an array length failed to resolve, in the
/// type itself or in a struct its struct table entry holds.
pub open spec fn resolution_fails(ty: ValueType, decls: Seq<StructDecl>) -> bool {
    has_invalid_length(ty) || match innermost_struct(ty) {
        Some(name) => exists|i: int| 0 <= i < struct_table(decls).len() && (#[trigger] struct_table(decls)[i]).name@ == name
            && length_failure(struct_table(decls), i),
        None => false,
    }
}

/// The compile-time findings of the constant initializers, in order.
pub open spec fn constant_init_findings(cs: Seq<Constant>, globals: Seq<Global>) -> Seq<(Seq<char>, Span)>
    decreases cs.len(),
{
    if cs.len() == 0 {
        seq![]
    } else {
        constant_init_findings(cs.drop_last(), globals) + compile_time_findings(cs.last().init, globals, "constant expressions"@)
    }
}

/// The compile-time findings of the global initializers whose types could be laid out, in order.
pub open spec fn global_init_findings(gs: Seq<Global>, globals: Seq<Global>, decls: Seq<StructDecl>) -> Seq<(Seq<char>, Span)>
    decreases gs.len(),
{
    if gs.len() == 0 {
        seq![]
    } else {
        global_init_findings(gs.drop_last(), globals, decls) + if resolution_fails(gs.last().ty, decls) {
            seq![]
        } else {
            compile_time_findings(gs.last().init, globals, "global initializers"@)
        }
    }
}

/// Reports what keeps each constant initializer from compile-time evaluation.
fn check_constant_initializers(cs: &Vec<Constant>, globals: &Vec<Global>, diagnostics: &mut Vec<Diagnostic>)
    ensures
        findings(final(diagnostics)@) == findings(old(diagnostics)@) + constant_init_findings(cs@, globals@),
{
    let mut i: usize = 0;
    while i < cs.len()
        invariant
            i <= cs@.len(),
            findings(diagnostics@) == findings(old(diagnostics)@) + constant_init_findings(cs@.subrange(0, i as int), globals@),
        decreases cs.len() - i,
    {
        let ghost prefix = cs@.subrange(0, i + 1);
        assert(prefix.drop_last() == cs@.subrange(0, i as int));
        assert(prefix.last() == cs@[i as int]);
        validate_compile_time_structure(&cs[i].init, globals, "constant expressions", diagnostics);
        assert(findings(diagnostics@) =~= findings(old(diagnostics)@) + constant_init_findings(prefix, globals@));
        i += 1;
    }
    assert(cs@.subrange(0, i as int) == cs@);
}

/// Whether values of `ty` cannot be laid out, as `resolution_fails` says.
pub(crate) fn fails_to_resolve(ty: &ValueType, decls: &Vec<StructDecl>, analysis: &StructTypeAnalysis) -> (failed: bool)
    requires
        forall|i: int| 0 <= i < struct_table(decls@).len() ==> (analysis.fails(#[trigger] struct_table(decls@)[i].name@) <==> length_failure(struct_table(decls@), i)),
        forall|name: Seq<char>| analysis.fails(name) ==> declares(decls@, name),
    ensures
        failed == resolution_fails(*ty, decls@),
{
    proof {
        lemma_struct_table(decls@);
    }
    let failed = analysis.resolution_failed(ty);
    proof {
        let t = struct_table(decls@);
        match innermost_struct(*ty) {
            Some(name) => {
                if analysis.fails(name) {
                    assert(declares(t, name));
                    let k = choose|k: int| 0 <= k < t.len() && (#[trigger] t[k]).name@ == name;
                    assert(length_failure(t, k));
                }
                if exists|k: int| 0 <= k < t.len() && (#[trigger] t[k]).name@ == name && length_failure(t, k) {
                    let k = choose|k: int| 0 <= k < t.len() && (#[trigger] t[k]).name@ == name && length_failure(t, k);
                    assert(analysis.fails(t[k].name@));
                }
            },
            None => {},
        }
    }
    failed
}

/// Reports what keeps each global initializer from compile-time evaluation, skipping globals
/// whose types could not be laid out.
fn check_global_initializers(
    gs: &Vec<Global>,
    decls: &Vec<StructDecl>,
    analysis: &StructTypeAnalysis,
    diagnostics: &mut Vec<Diagnostic>,
)
    requires
        forall|i: int| 0 <= i < struct_table(decls@).len() ==> (analysis.fails(#[trigger] struct_table(decls@)[i].name@) <==> length_failure(struct_table(decls@), i)),
        forall|name: Seq<char>| analysis.fails(name) ==> declares(decls@, name),
    ensures
        findings(final(diagnostics)@) == findings(old(diagnostics)@) + global_init_findings(gs@, gs@, decls@),
{
    proof {
        lemma_struct_table(decls@);
    }
    let mut i: usize = 0;
    while i < gs.len()
        invariant
            i <= gs@.len(),
            forall|i: int| 0 <= i < struct_table(decls@).len() ==> (analysis.fails(#[trigger] struct_table(decls@)[i].name@) <==> length_failure(struct_table(decls@), i)),
            forall|name: Seq<char>| analysis.fails(name) ==> declares(decls@, name),
            forall|name: Seq<char>| declares(struct_table(decls@), name) <==> declares(decls@, name),
            findings(diagnostics@) == findings(old(diagnostics)@) + global_init_findings(gs@.subrange(0, i as int), gs@, decls@),
        decreases gs.len() - i,
    {
        let ghost prefix = gs@.subrange(0, i + 1);
        assert(prefix.drop_last() == gs@.subrange(0, i as int));
        assert(prefix.last() == gs@[i as int]);
        let failed = fails_to_resolve(&gs[i].ty, decls, analysis);
        if !failed {
            validate_compile_time_structure(&gs[i].init, gs, "global initializers", diagnostics);
        }
        assert(findings(diagnostics@) =~= findings(old(diagnostics)@) + global_init_findings(prefix, gs@, decls@));
        i += 1;
    }
    assert(gs@.subrange(0, i as int) == gs@);
}

/// Everything the declaration checks find, in the order they find it: struct names and fields,
/// unknown types, recursive structs, constants, globals, what keeps initializers from
/// compile-time evaluation, functions, then entry points.
pub open spec fn declaration_findings(program: Program) -> Seq<(Seq<char>, Span)> {
    let (after_structs, _, structs) = struct_pass(program.structs@, initial_names());
    let (after_constants, constants) = constant_pass(program.constants@, after_structs);
    let (after_globals, globals) = global_pass(program.globals@, after_constants);
    let (_, functions) = function_pass(program.functions@, after_globals);
    let table = struct_table(program.structs@);
    structs + unknown_findings(program_types(program), program.structs@) + recursion_findings(table, table.len() as int)
        + constants + globals + constant_init_findings(program.constants@, program.globals@)
        + global_init_findings(program.globals@, program.globals@, program.structs@) + functions
        + entry_findings(program)
}

/// Checks a program's top-level declarations. Each distinct finding is reported once, at its
/// first occurrence.
pub fn check_declarations(program: &Program) -> (diagnostics: Vec<Diagnostic>)
    ensures
        findings(diagnostics@) == first_occurrences(declaration_findings(*program)),
{
    let mut diagnostics: Vec<Diagnostic> = Vec::new();
    collect_declaration_findings(program, &mut diagnostics);
    assert(findings(diagnostics@) =~= declaration_findings(*program));
    deduplicate_diagnostics(&mut diagnostics);
    diagnostics
}

/// Appends everything the declaration checks find, repeats included.
#[verifier::spinoff_prover]
#[verifier::rlimit(40)]
pub(crate) fn collect_declaration_findings(program: &Program, diagnostics: &mut Vec<Diagnostic>)
    ensures
        findings(final(diagnostics)@) == findings(old(diagnostics)@) + declaration_findings(*program),
{
    let ghost before = findings(diagnostics@);
    let mut names = initial_table();
    check_structs(&program.structs, &mut names, diagnostics);
    validate_declared_types(program, &program.structs, diagnostics);
    let analysis = StructTypeAnalysis::new(&program.structs, diagnostics);
    check_constants(&program.constants, &mut names, diagnostics);
    check_globals(&program.globals, &mut names, diagnostics);
    check_constant_initializers(&program.constants, &program.globals, diagnostics);
    check_global_initializers(&program.globals, &program.structs, &analysis, diagnostics);
    check_functions(&program.functions, &mut names, diagnostics);
    check_entry(program, FunctionKind::Start, "start", diagnostics);
    check_entry(program, FunctionKind::Update, "update", diagnostics);
    check_entry(program, FunctionKind::Draw, "draw", diagnostics);
    proof {
        reveal_strlit("start");
        reveal_strlit("update");
        reveal_strlit("draw");
    }
    assert(findings(diagnostics@) =~= before + declaration_findings(*program));
}

} // verus!
