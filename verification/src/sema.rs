//! Semantic checks on declarations: struct dependency analysis, array lengths, known types,
//! definite returns, and the bookkeeping of diagnostics.
use vstd::prelude::*;

pub mod bodies;
pub mod declarations;
pub mod evaluation;
pub mod floats;
pub mod inference;
pub mod laws;
pub mod lengths;
pub mod statements;
pub mod typing;

pub use bodies::check;

use crate::ast::{
    has_invalid_length, innermost_struct, Constant, Expr, ExprKind, FieldInitializer, Function, Global,
    Param, Program, ReturnType, Stmt, StmtKind, StructDecl, StructField, ValueType,
};
use crate::diagnostic::{Diagnostic, Span};
use crate::graph::{graph_view, reachable_from, reaches, recursive_members, well_formed};
use crate::text::{decimal, owned, push_signed_decimal, push_str, signed_decimal, str_equal};

verus! {

/// A diagnostic as its message and span.
pub open spec fn finding(d: Diagnostic) -> (Seq<char>, Span) {
    (d.message@, d.span)
}

/// The findings of a list of diagnostics.
pub open spec fn findings(ds: Seq<Diagnostic>) -> Seq<(Seq<char>, Span)> {
    ds.map_values(|d: Diagnostic| finding(d))
}

/// Whether two diagnostics have the same message and span.
fn same_diagnostic(a: &Diagnostic, b: &Diagnostic) -> (same: bool)
    ensures
        same == (finding(*a) == finding(*b)),
{
    str_equal(a.message.as_str(), b.message.as_str()) && a.span == b.span
}

/// A copy of a diagnostic.
fn copy_diagnostic(d: &Diagnostic) -> (copy: Diagnostic)
    ensures
        finding(copy) == finding(*d),
{
    Diagnostic::new(owned(d.message.as_str()), d.span)
}

/// Whether a diagnostic with the same message and span is already listed.
fn listed(diagnostics: &Vec<Diagnostic>, d: &Diagnostic) -> (found: bool)
    ensures
        found == findings(diagnostics@).contains(finding(*d)),
{
    let mut k: usize = 0;
    while k < diagnostics.len()
        invariant
            k <= diagnostics@.len(),
            forall|j: int| 0 <= j < k ==> finding(#[trigger] diagnostics@[j]) != finding(*d),
        decreases diagnostics.len() - k,
    {
        if same_diagnostic(&diagnostics[k], d) {
            assert(findings(diagnostics@)[k as int] == finding(*d));
            return true;
        }
        k += 1;
    }
    proof {
        if findings(diagnostics@).contains(finding(*d)) {
            let j = choose|j: int| 0 <= j < findings(diagnostics@).len() && findings(diagnostics@)[j] == finding(*d);
            assert(finding(diagnostics@[j]) == finding(*d));
        }
    }
    false
}

/// Appends a diagnostic unless one with the same message and span is already listed.
pub fn push_unique_diagnostic(diagnostics: &mut Vec<Diagnostic>, diagnostic: Diagnostic)
    ensures
        findings(final(diagnostics)@) == if findings(old(diagnostics)@).contains(finding(diagnostic)) {
            findings(old(diagnostics)@)
        } else {
            findings(old(diagnostics)@).push(finding(diagnostic))
        },
{
    if !listed(diagnostics, &diagnostic) {
        diagnostics.push(diagnostic);
        assert(findings(diagnostics@) == findings(old(diagnostics)@).push(finding(diagnostic)));
    }
}

/// The entries of `s` without later repeats, in order of first occurrence.
pub open spec fn first_occurrences<T>(s: Seq<T>) -> Seq<T>
    decreases s.len(),
{
    if s.len() == 0 {
        s
    } else {
        let kept = first_occurrences(s.drop_last());
        if s.drop_last().contains(s.last()) {
            kept
        } else {
            kept.push(s.last())
        }
    }
}

/// What `first_occurrences` keeps is exactly what occurs.
pub proof fn lemma_first_occurrences_contains<T>(s: Seq<T>, x: T)
    ensures
        first_occurrences(s).contains(x) <==> s.contains(x),
    decreases s.len(),
{
    if s.len() > 0 {
        let t = s.drop_last();
        let l = s.last();
        lemma_first_occurrences_contains(t, x);
        assert(s.contains(x) <==> (t.contains(x) || x == l)) by {
            if s.contains(x) {
                let j = choose|j: int| 0 <= j < s.len() && s[j] == x;
                if j < t.len() {
                    assert(t[j] == x);
                }
            }
            if t.contains(x) {
                let j = choose|j: int| 0 <= j < t.len() && t[j] == x;
                assert(s[j] == x);
            }
            if x == l {
                assert(s[s.len() - 1] == x);
            }
        }
        if !t.contains(l) {
            let k = first_occurrences(t);
            assert(k.push(l).contains(x) <==> (k.contains(x) || x == l)) by {
                if k.push(l).contains(x) {
                    let j = choose|j: int| 0 <= j < k.push(l).len() && k.push(l)[j] == x;
                    if j < k.len() {
                        assert(k[j] == x);
                    }
                }
                if k.contains(x) {
                    let j = choose|j: int| 0 <= j < k.len() && k[j] == x;
                    assert(k.push(l)[j] == x);
                }
                if x == l {
                    assert(k.push(l)[k.len() as int] == x);
                }
            }
        }
    }
}

/// Keeps the first diagnostic of each message and span, in order.
pub fn deduplicate_diagnostics(diagnostics: &mut Vec<Diagnostic>)
    ensures
        findings(final(diagnostics)@) == first_occurrences(findings(old(diagnostics)@)),
{
    let ghost all = findings(diagnostics@);
    let mut kept: Vec<Diagnostic> = Vec::new();
    let mut k: usize = 0;
    while k < diagnostics.len()
        invariant
            k <= diagnostics@.len(),
            all == findings(diagnostics@),
            findings(kept@) == first_occurrences(all.subrange(0, k as int)),
        decreases diagnostics.len() - k,
    {
        let ghost prefix = all.subrange(0, k as int);
        assert(all.subrange(0, k + 1).drop_last() == prefix);
        assert(all.subrange(0, k + 1).last() == finding(diagnostics@[k as int]));
        proof {
            lemma_first_occurrences_contains(prefix, finding(diagnostics@[k as int]));
        }
        if !listed(&kept, &diagnostics[k]) {
            let copy = copy_diagnostic(&diagnostics[k]);
            kept.push(copy);
            assert(findings(kept@) == first_occurrences(prefix).push(finding(diagnostics@[k as int])));
        }
        k += 1;
    }
    assert(all.subrange(0, k as int) == all);
    *diagnostics = kept;
}

/// The message for an array length that is not positive.
pub open spec fn nonpositive_length_message(value: i64) -> Seq<char> {
    "array length must be positive, found "@ + signed_decimal(value as int)
}

/// An array length as a `usize`: positive and within the `i32` index range.
pub fn positive_array_length(value: i64, span: Span) -> (length: Result<usize, Diagnostic>)
    ensures
        match length {
            Ok(n) => 0 < value <= i32::MAX && n == value,
            Err(d) => d.span == span && if value <= 0 {
                d.message@ == nonpositive_length_message(value)
            } else {
                value > i32::MAX && d.message@ == "array length exceeds the maximum i32 index range"@
            },
        },
{
    if value <= 0 {
        let mut message = owned("array length must be positive, found ");
        push_signed_decimal(&mut message, value);
        proof {
            reveal_strlit("array length must be positive, found ");
        }
        return Err(Diagnostic::new(message, span));
    }
    if value > 2147483647 {
        return Err(Diagnostic::new(owned("array length exceeds the maximum i32 index range"), span));
    }
    Ok(value as usize)
}

// ---------------------------------------------------------------------------------------------
// Struct declarations

/// Declarations whose names are pairwise distinct, as the keys of a table are.
pub open spec fn distinct_names(structs: Seq<StructDecl>) -> bool {
    forall|i: int, j: int|
        0 <= i < structs.len() && 0 <= j < structs.len() && i != j ==> (#[trigger] structs[i]).name@
            != (#[trigger] structs[j]).name@
}

/// Whether some declaration has this name.
pub open spec fn declares(structs: Seq<StructDecl>, name: Seq<char>) -> bool {
    exists|i: int| 0 <= i < structs.len() && (#[trigger] structs[i]).name@ == name
}

/// The position of the declaration with this name.
pub open spec fn declaration_of(structs: Seq<StructDecl>, name: Seq<char>) -> int {
    choose|i: int| 0 <= i < structs.len() && (#[trigger] structs[i]).name@ == name
}

/// The declaration that a type depends on by value: the struct it names, through arrays, if
/// that struct is declared.
pub open spec fn dependency_of(structs: Seq<StructDecl>, ty: ValueType) -> Option<usize> {
    match innermost_struct(ty) {
        Some(name) => if declares(structs, name) {
            Some(declaration_of(structs, name) as usize)
        } else {
            None
        },
        None => None,
    }
}

/// The declarations that fields depend on, in field order.
pub open spec fn field_dependencies(structs: Seq<StructDecl>, fields: Seq<StructField>) -> Seq<usize>
    decreases fields.len(),
{
    if fields.len() == 0 {
        seq![]
    } else {
        field_dependencies(structs, fields.drop_last()) + match dependency_of(structs, fields.last().ty) {
            Some(j) => seq![j],
            None => seq![],
        }
    }
}

/// The graph in which each declaration points at the declarations its fields hold by value.
pub open spec fn dependency_graph(structs: Seq<StructDecl>) -> Seq<Seq<usize>> {
    Seq::new(structs.len(), |i: int| field_dependencies(structs, structs[i].fields@))
}

/// A declaration with a field whose own array length failed to resolve.
pub open spec fn direct_length_failure(structs: Seq<StructDecl>, i: int) -> bool {
    exists|k: int| 0 <= k < structs[i].fields@.len() && has_invalid_length(#[trigger] structs[i].fields@[k].ty)
}

/// A declaration that holds, itself or through the declarations it depends on, a field whose
/// array length failed to resolve.
pub open spec fn length_failure(structs: Seq<StructDecl>, i: int) -> bool {
    direct_length_failure(structs, i) || exists|j: int|
        0 <= j < structs.len() && reaches(dependency_graph(structs), i, j) && #[trigger] direct_length_failure(structs, j)
}

/// The message for a struct that contains itself.
pub open spec fn recursive_struct_message(name: Seq<char>) -> Seq<char> {
    "recursive value type is not supported: struct `"@ + name + "` contains itself"@
}

/// The findings for the first `n` declarations that reach themselves, in order.
pub open spec fn recursion_findings(structs: Seq<StructDecl>, n: int) -> Seq<(Seq<char>, Span)>
    decreases n,
{
    if n <= 0 {
        seq![]
    } else {
        recursion_findings(structs, n - 1) + if reaches(dependency_graph(structs), n - 1, n - 1) {
            seq![(recursive_struct_message(structs[n - 1].name@), structs[n - 1].span)]
        } else {
            seq![]
        }
    }
}

/// Whether no later declaration has the same name as declaration `j`.
pub open spec fn is_latest(decls: Seq<StructDecl>, j: int) -> bool {
    forall|k: int| j < k < decls.len() ==> (#[trigger] decls[k]).name@ != decls[j].name@
}

/// The positions among the first `n` declarations that no later declaration renames, in order.
pub open spec fn latest_indices(decls: Seq<StructDecl>, n: int) -> Seq<int>
    decreases n,
{
    if n <= 0 {
        seq![]
    } else {
        latest_indices(decls, n - 1) + if is_latest(decls, n - 1) {
            seq![n - 1]
        } else {
            seq![]
        }
    }
}

/// The struct table a program declares: for each name its latest declaration, ordered by where
/// that declaration stands.
pub open spec fn struct_table(decls: Seq<StructDecl>) -> Seq<StructDecl> {
    latest_indices(decls, decls.len() as int).map_values(|j: int| decls[j])
}

pub(crate) proof fn lemma_latest_indices(decls: Seq<StructDecl>, n: int)
    requires
        0 <= n <= decls.len(),
    ensures
        forall|i: int| 0 <= i < latest_indices(decls, n).len() ==> 0 <= #[trigger] latest_indices(decls, n)[i] < n
            && is_latest(decls, latest_indices(decls, n)[i]),
        forall|i: int, k: int| 0 <= i < k < latest_indices(decls, n).len() ==> #[trigger] latest_indices(decls, n)[i] < #[trigger] latest_indices(decls, n)[k],
        forall|j: int| 0 <= j < n && is_latest(decls, j) ==> latest_indices(decls, n).contains(j),
    decreases n,
{
    if n > 0 {
        lemma_latest_indices(decls, n - 1);
        let shorter = latest_indices(decls, n - 1);
        let extra: Seq<int> = if is_latest(decls, n - 1) { seq![n - 1] } else { seq![] };
        assert(latest_indices(decls, n) == shorter + extra);
        assert forall|j: int| 0 <= j < n && is_latest(decls, j) implies latest_indices(decls, n).contains(j) by {
            if j < n - 1 {
                let i = choose|i: int| 0 <= i < shorter.len() && shorter[i] == j;
                assert(latest_indices(decls, n)[i] == j);
            } else {
                assert(latest_indices(decls, n)[shorter.len() as int] == j);
            }
        }
    }
}

/// Each name occurs once in the table, and every declared name occurs in it.
pub proof fn lemma_struct_table(decls: Seq<StructDecl>)
    ensures
        distinct_names(struct_table(decls)),
        forall|name: Seq<char>| declares(struct_table(decls), name) <==> declares(decls, name),
{
    let n = decls.len() as int;
    lemma_latest_indices(decls, n);
    let l = latest_indices(decls, n);
    let t = struct_table(decls);
    assert forall|i: int, k: int| 0 <= i < t.len() && 0 <= k < t.len() && i != k implies (#[trigger] t[i]).name@ != (#[trigger] t[k]).name@ by {
        if i < k {
            assert(l[i] < l[k]);
            assert(decls[l[k]].name@ != decls[l[i]].name@);
        } else {
            assert(l[k] < l[i]);
            assert(decls[l[i]].name@ != decls[l[k]].name@);
        }
    }
    assert forall|name: Seq<char>| declares(t, name) <==> declares(decls, name) by {
        if declares(t, name) {
            let i = choose|i: int| 0 <= i < t.len() && (#[trigger] t[i]).name@ == name;
            assert(decls[l[i]].name@ == name);
        }
        if declares(decls, name) {
            let j0 = choose|j: int| 0 <= j < decls.len() && (#[trigger] decls[j]).name@ == name;
            let j = last_with_name(decls, name, j0);
            assert(l.contains(j));
            let i = choose|i: int| 0 <= i < l.len() && l[i] == j;
            assert(t[i].name@ == name);
        }
    }
}

/// The last declaration with `name`, found from one at `from`.
proof fn last_with_name(decls: Seq<StructDecl>, name: Seq<char>, from: int) -> (j: int)
    requires
        0 <= from < decls.len(),
        decls[from].name@ == name,
    ensures
        0 <= j < decls.len(),
        decls[j].name@ == name,
        is_latest(decls, j),
    decreases decls.len() - from,
{
    if exists|k: int| from < k < decls.len() && (#[trigger] decls[k]).name@ == name {
        let k = choose|k: int| from < k < decls.len() && (#[trigger] decls[k]).name@ == name;
        last_with_name(decls, name, k)
    } else {
        from
    }
}

/// The positions of the struct table's declarations.
fn latest_declarations(decls: &Vec<StructDecl>) -> (positions: Vec<usize>)
    ensures
        positions@.len() == latest_indices(decls@, decls@.len() as int).len(),
        forall|i: int| 0 <= i < positions@.len() ==> #[trigger] positions@[i] == latest_indices(decls@, decls@.len() as int)[i],
{
    let mut positions: Vec<usize> = Vec::new();
    let mut j: usize = 0;
    while j < decls.len()
        invariant
            j <= decls@.len(),
            positions@.len() == latest_indices(decls@, j as int).len(),
            forall|i: int| 0 <= i < positions@.len() ==> #[trigger] positions@[i] == latest_indices(decls@, j as int)[i],
        decreases decls.len() - j,
    {
        let mut latest = true;
        let mut k: usize = j + 1;
        while k < decls.len()
            invariant
                j < k <= decls@.len(),
                latest == forall|m: int| j < m < k ==> (#[trigger] decls@[m]).name@ != decls@[j as int].name@,
            decreases decls.len() - k,
        {
            if str_equal(decls[k].name.as_str(), decls[j].name.as_str()) {
                latest = false;
            }
            k += 1;
        }
        if latest {
            positions.push(j);
        }
        j += 1;
    }
    positions
}

/// `positions` picks out, in order, the declarations of `table` from `decls`.
pub open spec fn picks(decls: Seq<StructDecl>, positions: Seq<usize>, table: Seq<StructDecl>) -> bool {
    &&& positions.len() == table.len()
    &&& forall|i: int| 0 <= i < positions.len() ==> (#[trigger] positions[i]) < decls.len() && decls[positions[i] as int] == table[i]
}

/// The table position of the declaration named `name`, if any.
fn find_struct(decls: &Vec<StructDecl>, positions: &Vec<usize>, name: &str) -> (found: Option<usize>)
    requires
        picks(decls@, positions@, struct_table(decls@)),
        distinct_names(struct_table(decls@)),
    ensures
        match found {
            Some(i) => declares(struct_table(decls@), name@) && i == declaration_of(struct_table(decls@), name@),
            None => !declares(struct_table(decls@), name@),
        },
{
    let ghost t = struct_table(decls@);
    let mut k: usize = 0;
    while k < positions.len()
        invariant
            k <= positions@.len(),
            t == struct_table(decls@),
            picks(decls@, positions@, t),
            distinct_names(t),
            forall|j: int| 0 <= j < k ==> (#[trigger] t[j]).name@ != name@,
        decreases positions.len() - k,
    {
        if str_equal(decls[positions[k]].name.as_str(), name) {
            proof {
                assert(t[k as int].name@ == name@);
                let c = declaration_of(t, name@);
                assert(t[c].name@ == name@);
                if c != k {
                    assert(t[c].name@ != t[k as int].name@);
                }
            }
            return Some(k);
        }
        k += 1;
    }
    None
}

/// The dependency lists of the table's declarations.
fn dependencies(decls: &Vec<StructDecl>, positions: &Vec<usize>) -> (graph: Vec<Vec<usize>>)
    requires
        picks(decls@, positions@, struct_table(decls@)),
        distinct_names(struct_table(decls@)),
    ensures
        graph@.len() == struct_table(decls@).len(),
        graph_view(graph@) == dependency_graph(struct_table(decls@)),
        well_formed(graph_view(graph@)),
{
    let ghost t = struct_table(decls@);
    let mut graph: Vec<Vec<usize>> = Vec::new();
    let mut i: usize = 0;
    while i < positions.len()
        invariant
            i <= positions@.len(),
            t == struct_table(decls@),
            picks(decls@, positions@, t),
            distinct_names(t),
            graph@.len() == i,
            forall|a: int| 0 <= a < i ==> (#[trigger] graph@[a])@ == field_dependencies(t, t[a].fields@),
            forall|a: int, k: int| 0 <= a < i && 0 <= k < graph@[a]@.len() ==> #[trigger] graph@[a]@[k] < t.len(),
        decreases positions.len() - i,
    {
        let fields = &decls[positions[i]].fields;
        let mut targets: Vec<usize> = Vec::new();
        let mut k: usize = 0;
        while k < fields.len()
            invariant
                k <= fields@.len(),
                t == struct_table(decls@),
                picks(decls@, positions@, t),
                distinct_names(t),
                fields@ == t[i as int].fields@,
                targets@ == field_dependencies(t, fields@.subrange(0, k as int)),
                forall|m: int| 0 <= m < targets@.len() ==> #[trigger] targets@[m] < t.len(),
            decreases fields.len() - k,
        {
            assert(fields@.subrange(0, k + 1).drop_last() == fields@.subrange(0, k as int));
            match fields[k].ty.struct_name() {
                Some(name) => {
                    match find_struct(decls, positions, name) {
                        Some(j) => {
                            targets.push(j);
                        },
                        None => {},
                    }
                },
                None => {},
            }
            k += 1;
        }
        assert(fields@.subrange(0, k as int) == fields@);
        graph.push(targets);
        i += 1;
    }
    assert(graph_view(graph@) =~= dependency_graph(t));
    graph
}

/// Whether `name` is among the recorded names.
pub open spec fn recorded(names: Seq<String>, name: Seq<char>) -> bool {
    exists|m: int| 0 <= m < names.len() && (#[trigger] names[m])@ == name
}

proof fn lemma_recorded_push(names: Seq<String>, added: String, name: Seq<char>)
    ensures
        recorded(names.push(added), name) <==> (recorded(names, name) || added@ == name),
{
    if recorded(names.push(added), name) {
        let m = choose|m: int| 0 <= m < names.push(added).len() && (#[trigger] names.push(added)[m])@ == name;
        if m < names.len() {
            assert(names[m]@ == name);
        }
    }
    if recorded(names, name) {
        let m = choose|m: int| 0 <= m < names.len() && (#[trigger] names[m])@ == name;
        assert(names.push(added)[m]@ == name);
    }
    if added@ == name {
        assert(names.push(added)[names.len() as int]@ == name);
    }
}

/// Which struct declarations hold an array whose length failed to resolve, directly or through
/// the structs they contain; building it reports every struct that contains itself.
pub struct StructTypeAnalysis {
    invalid_lengths: Vec<String>,
}

impl StructTypeAnalysis {
    /// Whether the analysis recorded `name` as holding a failed array length.
    pub closed spec fn fails(&self, name: Seq<char>) -> bool {
        recorded(self.invalid_lengths@, name)
    }

    /// Analyses a program's struct declarations through its struct table (see [`struct_table`]).
    /// A recursion message is appended, in table order, for each struct that contains itself.
    pub fn new(decls: &Vec<StructDecl>, diagnostics: &mut Vec<Diagnostic>) -> (analysis: StructTypeAnalysis)
        ensures
            findings(final(diagnostics)@) == findings(old(diagnostics)@) + recursion_findings(struct_table(decls@), struct_table(decls@).len() as int),
            forall|i: int| 0 <= i < struct_table(decls@).len() ==> (analysis.fails(#[trigger] struct_table(decls@)[i].name@) <==> length_failure(struct_table(decls@), i)),
            forall|name: Seq<char>| analysis.fails(name) ==> declares(decls@, name),
    {
        let ghost t = struct_table(decls@);
        let positions = latest_declarations(decls);
        proof {
            lemma_struct_table(decls@);
            lemma_latest_indices(decls@, decls@.len() as int);
            assert forall|i: int| 0 <= i < positions@.len() implies (#[trigger] positions@[i]) < decls@.len() && decls@[positions@[i] as int] == t[i] by {
                assert(positions@[i] == latest_indices(decls@, decls@.len() as int)[i]);
            }
        }
        let graph = dependencies(decls, &positions);
        let ghost g = graph_view(graph@);
        let recursive = recursive_members(&graph);
        let mut i: usize = 0;
        while i < positions.len()
            invariant
                i <= t.len(),
                t == struct_table(decls@),
                picks(decls@, positions@, t),
                g == dependency_graph(t),
                graph@.len() == t.len(),
                recursive@.len() == t.len(),
                forall|v: int| 0 <= v < t.len() ==> (recursive@[v] <==> reaches(g, v, v)),
                findings(diagnostics@) == findings(old(diagnostics)@) + recursion_findings(t, i as int),
            decreases positions.len() - i,
        {
            let ghost before = diagnostics@;
            let decl = &decls[positions[i]];
            if recursive[i] {
                let mut message = owned("recursive value type is not supported: struct `");
                push_str(&mut message, decl.name.as_str());
                push_str(&mut message, "` contains itself");
                proof {
                    reveal_strlit("recursive value type is not supported: struct `");
                    reveal_strlit("` contains itself");
                }
                diagnostics.push(Diagnostic::new(message, decl.span));
                assert(findings(diagnostics@) =~= findings(before).push(
                    (recursive_struct_message(t[i as int].name@), t[i as int].span),
                ));
            }
            assert(findings(diagnostics@) =~= findings(old(diagnostics)@) + recursion_findings(t, i + 1));
            i += 1;
        }
        let mut direct: Vec<bool> = Vec::new();
        let mut d: usize = 0;
        while d < positions.len()
            invariant
                d <= t.len(),
                t == struct_table(decls@),
                picks(decls@, positions@, t),
                direct@.len() == d,
                forall|j: int| 0 <= j < d ==> (direct@[j] <==> direct_length_failure(t, j)),
            decreases positions.len() - d,
        {
            let fields = &decls[positions[d]].fields;
            let mut failed = false;
            let mut k: usize = 0;
            while k < fields.len()
                invariant
                    k <= fields@.len(),
                    d < t.len(),
                    fields@ == t[d as int].fields@,
                    failed <==> exists|m: int| 0 <= m < k && has_invalid_length(#[trigger] fields@[m].ty),
                decreases fields.len() - k,
            {
                if fields[k].ty.has_invalid_array_length() {
                    failed = true;
                }
                k += 1;
            }
            direct.push(failed);
            d += 1;
        }
        let mut invalid_lengths: Vec<String> = Vec::new();
        let mut v: usize = 0;
        while v < positions.len()
            invariant
                v <= t.len(),
                t == struct_table(decls@),
                picks(decls@, positions@, t),
                g == dependency_graph(t),
                well_formed(graph_view(graph@)),
                g == graph_view(graph@),
                graph@.len() == t.len(),
                direct@.len() == t.len(),
                forall|j: int| 0 <= j < t.len() ==> (direct@[j] <==> direct_length_failure(t, j)),
                distinct_names(t),
                forall|name: Seq<char>| declares(t, name) <==> declares(decls@, name),
                forall|m: int| 0 <= m < invalid_lengths@.len() ==> declares(t, #[trigger] invalid_lengths@[m]@),
                forall|j: int| 0 <= j < v ==> (length_failure(t, j) <==> recorded(invalid_lengths@, #[trigger] t[j].name@)),
                forall|j: int| v <= j < t.len() ==> !recorded(invalid_lengths@, #[trigger] t[j].name@),
            decreases positions.len() - v,
        {
            let reached = reachable_from(&graph, v);
            let mut failed = direct[v];
            let mut w: usize = 0;
            while w < positions.len()
                invariant
                    w <= t.len(),
                    positions@.len() == t.len(),
                    reached@.len() == t.len(),
                    v < t.len(),
                    direct@.len() == t.len(),
                    failed <==> (direct@[v as int] || exists|j: int| 0 <= j < w && reached@[j] && direct@[j]),
                decreases positions.len() - w,
            {
                if reached[w] && direct[w] {
                    failed = true;
                }
                w += 1;
            }
            proof {
                if failed != length_failure(t, v as int) {
                    if failed && !direct@[v as int] {
                        let j = choose|j: int| 0 <= j < t.len() && reached@[j] && direct@[j];
                        assert(reaches(g, v as int, j) && direct_length_failure(t, j));
                    }
                    if !failed && length_failure(t, v as int) {
                        let j = choose|j: int| 0 <= j < t.len() && reaches(dependency_graph(t), v as int, j) && #[trigger] direct_length_failure(t, j);
                        assert(reached@[j] && direct@[j]);
                    }
                }
            }
            let ghost before = invalid_lengths@;
            if failed {
                let name = owned(decls[positions[v]].name.as_str());
                proof {
                    assert(declares(t, name@)) by {
                        assert(t[v as int].name@ == name@);
                    }
                }
                invalid_lengths.push(name);
            }
            proof {
                assert forall|x: Seq<char>| recorded(invalid_lengths@, x) <==> (recorded(before, x) || (failed && x == t[v as int].name@)) by {
                    if failed {
                        lemma_recorded_push(before, invalid_lengths@.last(), x);
                        assert(invalid_lengths@ == before.push(invalid_lengths@.last()));
                    } else {
                        assert(invalid_lengths@ == before);
                    }
                }
                assert forall|j: int| 0 <= j < v + 1 implies (length_failure(t, j) <==> recorded(invalid_lengths@, #[trigger] t[j].name@)) by {
                    if j < v {
                        assert(t[j].name@ != t[v as int].name@);
                    }
                }
                assert forall|j: int| v + 1 <= j < t.len() implies !recorded(invalid_lengths@, #[trigger] t[j].name@) by {
                    assert(t[j].name@ != t[v as int].name@);
                }
            }
            v += 1;
        }
        StructTypeAnalysis { invalid_lengths }
    }

    /// Whether values of `ty` cannot be laid out because an array length failed to resolve, in
    /// the type itself or in the struct it holds.
    pub fn resolution_failed(&self, ty: &ValueType) -> (failed: bool)
        ensures
            failed == (has_invalid_length(*ty) || match innermost_struct(*ty) {
                Some(name) => self.fails(name),
                None => false,
            }),
    {
        if ty.has_invalid_array_length() {
            return true;
        }
        match ty.struct_name() {
            Some(name) => {
                let mut k: usize = 0;
                while k < self.invalid_lengths.len()
                    invariant
                        k <= self.invalid_lengths@.len(),
                        !has_invalid_length(*ty),
                        innermost_struct(*ty) == Some(name@),
                        forall|m: int| 0 <= m < k ==> (#[trigger] self.invalid_lengths@[m])@ != name@,
                    decreases self.invalid_lengths.len() - k,
                {
                    if str_equal(self.invalid_lengths[k].as_str(), name) {
                        assert(self.invalid_lengths@[k as int]@ == name@);
                        return true;
                    }
                    k += 1;
                }
                false
            },
            None => false,
        }
    }
}

// ---------------------------------------------------------------------------------------------
// Definite returns

/// Whether a block returns on every path: some statement in it is a `return`, or an `if` whose
/// branches both return.
pub open spec fn block_returns_spec(block: Seq<Stmt>) -> bool
    decreases block,
{
    if block.len() == 0 {
        false
    } else {
        block_returns_spec(block.subrange(0, block.len() - 1)) || statement_returns(block[block.len() - 1])
    }
}

/// Whether one statement returns on every path.
pub open spec fn statement_returns(statement: Stmt) -> bool
    decreases statement,
{
    match statement.kind {
        StmtKind::Return(_) => true,
        StmtKind::If { then_block, else_block: Some(else_block), .. } => block_returns_spec(then_block@)
            && block_returns_spec(else_block@),
        _ => false,
    }
}

/// A block whose first `n` statements return on every path returns on every path.
proof fn lemma_returning_prefix(block: Seq<Stmt>, n: int)
    requires
        0 <= n <= block.len(),
        block_returns_spec(block.subrange(0, n)),
    ensures
        block_returns_spec(block),
    decreases block.len() - n,
{
    if n < block.len() {
        let longer = block.subrange(0, n + 1);
        assert(longer.subrange(0, longer.len() - 1) == block.subrange(0, n));
        lemma_returning_prefix(block, n + 1);
    } else {
        assert(block.subrange(0, n) == block);
    }
}

/// Whether `block` returns on every path.
pub fn block_returns(block: &Vec<Stmt>) -> (all_paths: bool)
    ensures
        all_paths == block_returns_spec(block@),
    decreases block@,
{
    let mut k: usize = 0;
    while k < block.len()
        invariant
            k <= block@.len(),
            block_returns_spec(block@.subrange(0, k as int)) == false,
        decreases block.len() - k,
    {
        let ends = match &block[k].kind {
            StmtKind::Return(_) => true,
            StmtKind::If { then_block, else_block: Some(else_block), .. } => {
                assert(decreases_to!(block@ => block@[k as int]));
                block_returns(then_block) && block_returns(else_block)
            },
            _ => false,
        };
        proof {
            let prefix = block@.subrange(0, k + 1);
            assert(prefix.subrange(0, prefix.len() - 1) == block@.subrange(0, k as int));
            assert(prefix[prefix.len() - 1] == block@[k as int]);
            assert(ends == statement_returns(block@[k as int]));
            assert(block_returns_spec(prefix) == (block_returns_spec(block@.subrange(0, k as int)) || ends));
        }
        if ends {
            proof {
                lemma_returning_prefix(block@, k as int + 1);
            }
            return true;
        }
        k += 1;
    }
    assert(block@.subrange(0, k as int) == block@);
    false
}

// ---------------------------------------------------------------------------------------------
// Known types

/// The types written in a block's `let` statements, with the statements' spans, in source
/// order and through nested blocks.
pub open spec fn block_types(block: Seq<Stmt>) -> Seq<(ValueType, Span)>
    decreases block,
{
    if block.len() == 0 {
        seq![]
    } else {
        block_types(block.subrange(0, block.len() - 1)) + statement_types(block[block.len() - 1])
    }
}

/// The types written in one statement and the blocks it holds.
pub open spec fn statement_types(statement: Stmt) -> Seq<(ValueType, Span)>
    decreases statement,
{
    match statement.kind {
        StmtKind::Let { ty, .. } => seq![(ty, statement.span)],
        StmtKind::If { then_block, else_block, .. } => block_types(then_block@) + match else_block {
            Some(else_block) => block_types(else_block@),
            None => seq![],
        },
        StmtKind::While { body, .. } => block_types(body@),
        StmtKind::For { body, .. } => block_types(body@),
        _ => seq![],
    }
}

/// The message for a type that names no declared struct.
pub open spec fn unknown_struct_message(name: Seq<char>) -> Seq<char> {
    "unknown struct type `"@ + name + "`"@
}

/// The finding for one written type: its struct, through arrays, must be declared.
pub open spec fn unknown_type_findings(ty: ValueType, span: Span, structs: Seq<StructDecl>) -> Seq<(Seq<char>, Span)> {
    match innermost_struct(ty) {
        Some(name) => if declares(structs, name) {
            seq![]
        } else {
            seq![(unknown_struct_message(name), span)]
        },
        None => seq![],
    }
}

/// The findings for a list of written types, in order.
pub open spec fn unknown_findings(types: Seq<(ValueType, Span)>, structs: Seq<StructDecl>) -> Seq<(Seq<char>, Span)>
    decreases types.len(),
{
    if types.len() == 0 {
        seq![]
    } else {
        unknown_findings(types.drop_last(), structs) + unknown_type_findings(
            types.last().0,
            types.last().1,
            structs,
        )
    }
}

proof fn lemma_unknown_findings_concat(a: Seq<(ValueType, Span)>, b: Seq<(ValueType, Span)>, structs: Seq<StructDecl>)
    ensures
        unknown_findings(a + b, structs) == unknown_findings(a, structs) + unknown_findings(b, structs),
    decreases b.len(),
{
    if b.len() == 0 {
        assert(a + b == a);
    } else {
        assert((a + b).drop_last() == a + b.drop_last());
        lemma_unknown_findings_concat(a, b.drop_last(), structs);
    }
}

/// Whether some declaration has this name.
fn is_declared(structs: &Vec<StructDecl>, name: &str) -> (found: bool)
    ensures
        found == declares(structs@, name@),
{
    let mut k: usize = 0;
    while k < structs.len()
        invariant
            k <= structs@.len(),
            forall|j: int| 0 <= j < k ==> (#[trigger] structs@[j]).name@ != name@,
        decreases structs.len() - k,
    {
        if str_equal(structs[k].name.as_str(), name) {
            assert(structs@[k as int].name@ == name@);
            return true;
        }
        k += 1;
    }
    false
}

/// Reports a written type whose struct, through arrays, is not declared.
pub fn validate_known_type(ty: &ValueType, span: Span, structs: &Vec<StructDecl>, diagnostics: &mut Vec<Diagnostic>)
    ensures
        findings(final(diagnostics)@) == findings(old(diagnostics)@) + unknown_type_findings(*ty, span, structs@),
{
    match ty.struct_name() {
        Some(name) => {
            if !is_declared(structs, name) {
                let mut message = owned("unknown struct type `");
                push_str(&mut message, name);
                push_str(&mut message, "`");
                proof {
                    reveal_strlit("unknown struct type `");
                    reveal_strlit("`");
                }
                let ghost before = diagnostics@;
                diagnostics.push(Diagnostic::new(message, span));
                assert(findings(diagnostics@) =~= findings(before) + unknown_type_findings(*ty, span, structs@));
            } else {
                assert(findings(diagnostics@) =~= findings(old(diagnostics)@) + unknown_type_findings(*ty, span, structs@));
            }
        },
        None => {
            assert(findings(diagnostics@) =~= findings(old(diagnostics)@) + unknown_type_findings(*ty, span, structs@));
        },
    }
}

/// Reports every `let` type in a block, through nested blocks, that names an undeclared struct.
pub fn validate_block_types(block: &Vec<Stmt>, structs: &Vec<StructDecl>, diagnostics: &mut Vec<Diagnostic>)
    ensures
        findings(final(diagnostics)@) == findings(old(diagnostics)@) + unknown_findings(block_types(block@), structs@),
    decreases block@,
{
    let mut k: usize = 0;
    while k < block.len()
        invariant
            k <= block@.len(),
            findings(diagnostics@) == findings(old(diagnostics)@) + unknown_findings(block_types(block@.subrange(0, k as int)), structs@),
        decreases block.len() - k,
    {
        let ghost before = findings(diagnostics@);
        let ghost prefix = block@.subrange(0, k + 1);
        assert(prefix.subrange(0, prefix.len() - 1) == block@.subrange(0, k as int));
        assert(prefix[prefix.len() - 1] == block@[k as int]);
        assert(decreases_to!(block@ => block@[k as int]));
        let statement = &block[k];
        match &statement.kind {
            StmtKind::Let { ty, .. } => {
                validate_known_type(ty, statement.span, structs, diagnostics);
                proof {
                    assert(unknown_findings(seq![(*ty, statement.span)], structs@) == unknown_type_findings(*ty, statement.span, structs@)) by {
                        let one = seq![(*ty, statement.span)];
                        assert(one.drop_last() == Seq::<(ValueType, Span)>::empty());
                        assert(unknown_findings(one.drop_last(), structs@) == Seq::<(Seq<char>, Span)>::empty());
                        assert(Seq::<(Seq<char>, Span)>::empty() + unknown_type_findings(*ty, statement.span, structs@)
                            =~= unknown_type_findings(*ty, statement.span, structs@));
                    }
                }
            },
            StmtKind::If { then_block, else_block, .. } => {
                validate_block_types(then_block, structs, diagnostics);
                match else_block {
                    Some(else_block) => {
                        validate_block_types(else_block, structs, diagnostics);
                        proof {
                            lemma_unknown_findings_concat(block_types(then_block@), block_types(else_block@), structs@);
                        }
                    },
                    None => {
                        assert(block_types(then_block@) + seq![] == block_types(then_block@));
                    },
                }
            },
            StmtKind::While { body, .. } => {
                validate_block_types(body, structs, diagnostics);
            },
            StmtKind::For { body, .. } => {
                validate_block_types(body, structs, diagnostics);
            },
            _ => {
                assert(unknown_findings(seq![], structs@) == Seq::<(Seq<char>, Span)>::empty());
            },
        }
        proof {
            lemma_unknown_findings_concat(block_types(block@.subrange(0, k as int)), statement_types(block@[k as int]), structs@);
        }
        k += 1;
    }
    assert(block@.subrange(0, k as int) == block@);
}

/// The types of struct fields, with the fields' spans.
pub open spec fn field_types(fields: Seq<StructField>) -> Seq<(ValueType, Span)> {
    fields.map_values(|f: StructField| (f.ty, f.span))
}

/// The field types of every struct, in declaration order.
pub open spec fn struct_types(structs: Seq<StructDecl>) -> Seq<(ValueType, Span)>
    decreases structs.len(),
{
    if structs.len() == 0 {
        seq![]
    } else {
        struct_types(structs.drop_last()) + field_types(structs.last().fields@)
    }
}

/// The types a function writes: its parameters', its return type (at the function's span),
/// and those of its body.
pub open spec fn function_types(f: Function) -> Seq<(ValueType, Span)> {
    f.params@.map_values(|p: Param| (p.ty, p.span)) + returned_types(f) + block_types(f.body@)
}

/// The return type a function writes, at the function's span.
pub open spec fn returned_types(f: Function) -> Seq<(ValueType, Span)> {
    match f.return_type {
        ReturnType::Value(ty) => seq![(ty, f.span)],
        ReturnType::Void => seq![],
    }
}

/// The types every function writes, in declaration order.
pub open spec fn functions_types(functions: Seq<Function>) -> Seq<(ValueType, Span)>
    decreases functions.len(),
{
    if functions.len() == 0 {
        seq![]
    } else {
        functions_types(functions.drop_last()) + function_types(functions.last())
    }
}

/// Every type a program writes, with the span a diagnostic about it points at: struct fields,
/// constants, globals, then functions.
pub open spec fn program_types(program: Program) -> Seq<(ValueType, Span)> {
    struct_types(program.structs@) + program.constants@.map_values(|c: Constant| (c.ty, c.span))
        + program.globals@.map_values(|g: Global| (g.ty, g.span)) + functions_types(program.functions@)
}

proof fn lemma_unknown_findings_one(ty: ValueType, span: Span, structs: Seq<StructDecl>)
    ensures
        unknown_findings(seq![(ty, span)], structs) == unknown_type_findings(ty, span, structs),
{
    let one = seq![(ty, span)];
    assert(one.drop_last() == Seq::<(ValueType, Span)>::empty());
    assert(one.last() == (ty, span));
    assert(unknown_findings(one.drop_last(), structs) == Seq::<(Seq<char>, Span)>::empty());
    assert(Seq::<(Seq<char>, Span)>::empty() + unknown_type_findings(ty, span, structs)
        =~= unknown_type_findings(ty, span, structs));
}

/// Reports every type the program writes that names an undeclared struct, in program order.
pub fn validate_declared_types(program: &Program, structs: &Vec<StructDecl>, diagnostics: &mut Vec<Diagnostic>)
    ensures
        findings(final(diagnostics)@) == findings(old(diagnostics)@) + unknown_findings(program_types(*program), structs@),
{
    let ghost s = structs@;
    let ghost start = findings(diagnostics@);
    let mut i: usize = 0;
    while i < program.structs.len()
        invariant
            i <= program.structs@.len(),
            s == structs@,
            findings(diagnostics@) == start + unknown_findings(struct_types(program.structs@.subrange(0, i as int)), s),
        decreases program.structs.len() - i,
    {
        let fields = &program.structs[i].fields;
        let ghost before = findings(diagnostics@);
        let mut k: usize = 0;
        while k < fields.len()
            invariant
                k <= fields@.len(),
                s == structs@,
                findings(diagnostics@) == before + unknown_findings(field_types(fields@).subrange(0, k as int), s),
            decreases fields.len() - k,
        {
            validate_known_type(&fields[k].ty, fields[k].span, structs, diagnostics);
            proof {
                assert(field_types(fields@).subrange(0, k + 1) == field_types(fields@).subrange(0, k as int) + seq![(fields@[k as int].ty, fields@[k as int].span)]);
                lemma_unknown_findings_concat(field_types(fields@).subrange(0, k as int), seq![(fields@[k as int].ty, fields@[k as int].span)], s);
                lemma_unknown_findings_one(fields@[k as int].ty, fields@[k as int].span, s);
            }
            k += 1;
        }
        proof {
            assert(field_types(fields@).subrange(0, k as int) == field_types(fields@));
            let sub = program.structs@.subrange(0, i + 1);
            assert(sub.drop_last() == program.structs@.subrange(0, i as int));
            lemma_unknown_findings_concat(struct_types(program.structs@.subrange(0, i as int)), field_types(fields@), s);
        }
        i += 1;
    }
    assert(program.structs@.subrange(0, i as int) == program.structs@);
    let ghost after_structs = findings(diagnostics@);
    let ghost constants = program.constants@.map_values(|c: Constant| (c.ty, c.span));
    let mut c: usize = 0;
    while c < program.constants.len()
        invariant
            c <= program.constants@.len(),
            s == structs@,
            constants == program.constants@.map_values(|c: Constant| (c.ty, c.span)),
            findings(diagnostics@) == after_structs + unknown_findings(constants.subrange(0, c as int), s),
        decreases program.constants.len() - c,
    {
        validate_known_type(&program.constants[c].ty, program.constants[c].span, structs, diagnostics);
        proof {
            assert(constants.subrange(0, c + 1) == constants.subrange(0, c as int) + seq![constants[c as int]]);
            lemma_unknown_findings_concat(constants.subrange(0, c as int), seq![constants[c as int]], s);
            lemma_unknown_findings_one(constants[c as int].0, constants[c as int].1, s);
        }
        c += 1;
    }
    assert(constants.subrange(0, c as int) == constants);
    let ghost after_constants = findings(diagnostics@);
    let ghost globals = program.globals@.map_values(|g: Global| (g.ty, g.span));
    let mut g: usize = 0;
    while g < program.globals.len()
        invariant
            g <= program.globals@.len(),
            s == structs@,
            globals == program.globals@.map_values(|g: Global| (g.ty, g.span)),
            findings(diagnostics@) == after_constants + unknown_findings(globals.subrange(0, g as int), s),
        decreases program.globals.len() - g,
    {
        validate_known_type(&program.globals[g].ty, program.globals[g].span, structs, diagnostics);
        proof {
            assert(globals.subrange(0, g + 1) == globals.subrange(0, g as int) + seq![globals[g as int]]);
            lemma_unknown_findings_concat(globals.subrange(0, g as int), seq![globals[g as int]], s);
            lemma_unknown_findings_one(globals[g as int].0, globals[g as int].1, s);
        }
        g += 1;
    }
    assert(globals.subrange(0, g as int) == globals);
    let ghost after_globals = findings(diagnostics@);
    let mut f: usize = 0;
    while f < program.functions.len()
        invariant
            f <= program.functions@.len(),
            s == structs@,
            findings(diagnostics@) == after_globals + unknown_findings(functions_types(program.functions@.subrange(0, f as int)), s),
        decreases program.functions.len() - f,
    {
        let function = &program.functions[f];
        let ghost before = findings(diagnostics@);
        let ghost params = function.params@.map_values(|p: Param| (p.ty, p.span));
        let mut k: usize = 0;
        while k < function.params.len()
            invariant
                k <= function.params@.len(),
                s == structs@,
                params == function.params@.map_values(|p: Param| (p.ty, p.span)),
                findings(diagnostics@) == before + unknown_findings(params.subrange(0, k as int), s),
            decreases function.params.len() - k,
        {
            validate_known_type(&function.params[k].ty, function.params[k].span, structs, diagnostics);
            proof {
                assert(params.subrange(0, k + 1) == params.subrange(0, k as int) + seq![params[k as int]]);
                lemma_unknown_findings_concat(params.subrange(0, k as int), seq![params[k as int]], s);
                lemma_unknown_findings_one(params[k as int].0, params[k as int].1, s);
            }
            k += 1;
        }
        assert(params.subrange(0, k as int) == params);
        let ghost returned = returned_types(*function);
        match &function.return_type {
            ReturnType::Value(ty) => {
                validate_known_type(ty, function.span, structs, diagnostics);
                proof {
                    lemma_unknown_findings_one(*ty, function.span, s);
                }
            },
            ReturnType::Void => {
                assert(unknown_findings(returned, s) == Seq::<(Seq<char>, Span)>::empty());
            },
        }
        validate_block_types(&function.body, structs, diagnostics);
        proof {
            lemma_unknown_findings_concat(params, returned, s);
            lemma_unknown_findings_concat(params + returned, block_types(function.body@), s);
            let sub = program.functions@.subrange(0, f + 1);
            assert(sub.drop_last() == program.functions@.subrange(0, f as int));
            assert(sub.last() == *function);
            lemma_unknown_findings_concat(functions_types(program.functions@.subrange(0, f as int)), function_types(*function), s);
        }
        f += 1;
    }
    assert(program.functions@.subrange(0, f as int) == program.functions@);
    proof {
        let a = struct_types(program.structs@);
        let b = constants;
        let c = globals;
        let d = functions_types(program.functions@);
        lemma_unknown_findings_concat(a, b, s);
        lemma_unknown_findings_concat(a + b, c, s);
        lemma_unknown_findings_concat(a + b + c, d, s);
    }
}

// ---------------------------------------------------------------------------------------------
// Compile-time initializers

/// Whether some global has this name.
pub open spec fn global_named(globals: Seq<Global>, name: Seq<char>) -> bool {
    exists|i: int| 0 <= i < globals.len() && (#[trigger] globals[i]).name@ == name
}

/// What checking an initializer for compile-time use finds, in evaluation order: each read of a
/// mutable global and each function call.
pub open spec fn compile_time_findings(e: Expr, globals: Seq<Global>, description: Seq<char>) -> Seq<(Seq<char>, Span)>
    decreases e,
{
    match e.kind {
        ExprKind::Variable(name) => if global_named(globals, name@) {
            seq![(description + " cannot reference mutable global `"@ + name@ + "`"@, e.span)]
        } else {
            seq![]
        },
        ExprKind::Unary { operand, .. } => compile_time_findings(*operand, globals, description),
        ExprKind::Binary { left, right, .. } => compile_time_findings(*left, globals, description)
            + compile_time_findings(*right, globals, description),
        ExprKind::Call { name, args } => seq![(description + " cannot call function `"@ + name@ + "`"@, e.span)]
            + list_findings(args@, globals, description),
        ExprKind::Conversion { args, .. } => list_findings(args@, globals, description),
        ExprKind::ArrayLiteral(elements) => list_findings(elements@, globals, description),
        ExprKind::Index { base, index } => compile_time_findings(*base, globals, description)
            + compile_time_findings(*index, globals, description),
        ExprKind::StructLiteral { fields, .. } => initializer_findings(fields@, globals, description),
        ExprKind::Field { base, .. } => compile_time_findings(*base, globals, description),
        _ => seq![],
    }
}

/// The findings of expressions in order.
pub open spec fn list_findings(es: Seq<Expr>, globals: Seq<Global>, description: Seq<char>) -> Seq<(Seq<char>, Span)>
    decreases es,
{
    if es.len() == 0 {
        seq![]
    } else {
        list_findings(es.subrange(0, es.len() - 1), globals, description) + compile_time_findings(
            es[es.len() - 1],
            globals,
            description,
        )
    }
}

/// The findings of field initializers' values in order.
pub open spec fn initializer_findings(fs: Seq<FieldInitializer>, globals: Seq<Global>, description: Seq<char>) -> Seq<(Seq<char>, Span)>
    decreases fs,
{
    if fs.len() == 0 {
        seq![]
    } else {
        initializer_findings(fs.subrange(0, fs.len() - 1), globals, description) + compile_time_findings(
            fs[fs.len() - 1].value,
            globals,
            description,
        )
    }
}

/// Whether some global has this name.
fn is_global(globals: &Vec<Global>, name: &str) -> (found: bool)
    ensures
        found == global_named(globals@, name@),
{
    let mut k: usize = 0;
    while k < globals.len()
        invariant
            k <= globals@.len(),
            forall|j: int| 0 <= j < k ==> (#[trigger] globals@[j]).name@ != name@,
        decreases globals.len() - k,
    {
        if str_equal(globals[k].name.as_str(), name) {
            assert(globals@[k as int].name@ == name@);
            return true;
        }
        k += 1;
    }
    false
}

/// Reports what keeps an initializer from being evaluated at compile time: reading a mutable
/// global or calling a function. Gives whether there was nothing to report.
pub fn validate_compile_time_structure(
    expression: &Expr,
    globals: &Vec<Global>,
    description: &str,
    diagnostics: &mut Vec<Diagnostic>,
) -> (valid: bool)
    ensures
        findings(final(diagnostics)@) == findings(old(diagnostics)@) + compile_time_findings(*expression, globals@, description@),
        valid == (compile_time_findings(*expression, globals@, description@).len() == 0),
    decreases expression,
{
    let ghost before = findings(diagnostics@);
    match &expression.kind {
        ExprKind::Variable(name) => {
            if is_global(globals, name.as_str()) {
                let mut message = owned(description);
                push_str(&mut message, " cannot reference mutable global `");
                push_str(&mut message, name.as_str());
                push_str(&mut message, "`");
                proof {
                    reveal_strlit(" cannot reference mutable global `");
                    reveal_strlit("`");
                }
                diagnostics.push(Diagnostic::new(message, expression.span));
                assert(findings(diagnostics@) =~= before + compile_time_findings(*expression, globals@, description@));
                false
            } else {
                assert(findings(diagnostics@) =~= before + compile_time_findings(*expression, globals@, description@));
                true
            }
        },
        ExprKind::Unary { operand, .. } => validate_compile_time_structure(operand, globals, description, diagnostics),
        ExprKind::Binary { left, right, .. } => {
            let left_valid = validate_compile_time_structure(left, globals, description, diagnostics);
            let right_valid = validate_compile_time_structure(right, globals, description, diagnostics);
            assert(findings(diagnostics@) =~= before + compile_time_findings(*expression, globals@, description@));
            left_valid && right_valid
        },
        ExprKind::Call { name, args } => {
            let mut message = owned(description);
            push_str(&mut message, " cannot call function `");
            push_str(&mut message, name.as_str());
            push_str(&mut message, "`");
            proof {
                reveal_strlit(" cannot call function `");
                reveal_strlit("`");
            }
            diagnostics.push(Diagnostic::new(message, expression.span));
            let ghost called = findings(diagnostics@);
            assert(called =~= before + seq![(description@ + " cannot call function `"@ + name@ + "`"@, expression.span)]);
            validate_list(args, globals, description, diagnostics);
            assert(findings(diagnostics@) =~= before + compile_time_findings(*expression, globals@, description@));
            false
        },
        ExprKind::Conversion { args, .. } => validate_list(args, globals, description, diagnostics),
        ExprKind::ArrayLiteral(elements) => validate_list(elements, globals, description, diagnostics),
        ExprKind::Index { base, index } => {
            let base_valid = validate_compile_time_structure(base, globals, description, diagnostics);
            let index_valid = validate_compile_time_structure(index, globals, description, diagnostics);
            assert(findings(diagnostics@) =~= before + compile_time_findings(*expression, globals@, description@));
            base_valid && index_valid
        },
        ExprKind::StructLiteral { fields, .. } => validate_initializers(fields, globals, description, diagnostics),
        ExprKind::Field { base, .. } => validate_compile_time_structure(base, globals, description, diagnostics),
        _ => {
            assert(findings(diagnostics@) =~= before + compile_time_findings(*expression, globals@, description@));
            true
        },
    }
}

/// Checks expressions in order; gives whether none had anything to report.
fn validate_list(es: &Vec<Expr>, globals: &Vec<Global>, description: &str, diagnostics: &mut Vec<Diagnostic>) -> (valid: bool)
    ensures
        findings(final(diagnostics)@) == findings(old(diagnostics)@) + list_findings(es@, globals@, description@),
        valid == (list_findings(es@, globals@, description@).len() == 0),
    decreases es@,
{
    let mut valid = true;
    let mut k: usize = 0;
    while k < es.len()
        invariant
            k <= es@.len(),
            findings(diagnostics@) == findings(old(diagnostics)@) + list_findings(es@.subrange(0, k as int), globals@, description@),
            valid == (list_findings(es@.subrange(0, k as int), globals@, description@).len() == 0),
        decreases es.len() - k,
    {
        let ghost prefix = es@.subrange(0, k + 1);
        assert(prefix.subrange(0, prefix.len() - 1) == es@.subrange(0, k as int));
        assert(prefix[prefix.len() - 1] == es@[k as int]);
        assert(decreases_to!(es@ => es@[k as int]));
        let one = validate_compile_time_structure(&es[k], globals, description, diagnostics);
        valid = valid && one;
        assert(findings(diagnostics@) =~= findings(old(diagnostics)@) + list_findings(prefix, globals@, description@));
        k += 1;
    }
    assert(es@.subrange(0, k as int) == es@);
    valid
}

/// Checks field initializers' values in order; gives whether none had anything to report.
fn validate_initializers(fs: &Vec<FieldInitializer>, globals: &Vec<Global>, description: &str, diagnostics: &mut Vec<Diagnostic>) -> (valid: bool)
    ensures
        findings(final(diagnostics)@) == findings(old(diagnostics)@) + initializer_findings(fs@, globals@, description@),
        valid == (initializer_findings(fs@, globals@, description@).len() == 0),
    decreases fs@,
{
    let mut valid = true;
    let mut k: usize = 0;
    while k < fs.len()
        invariant
            k <= fs@.len(),
            findings(diagnostics@) == findings(old(diagnostics)@) + initializer_findings(fs@.subrange(0, k as int), globals@, description@),
            valid == (initializer_findings(fs@.subrange(0, k as int), globals@, description@).len() == 0),
        decreases fs.len() - k,
    {
        let ghost prefix = fs@.subrange(0, k + 1);
        assert(prefix.subrange(0, prefix.len() - 1) == fs@.subrange(0, k as int));
        assert(prefix[prefix.len() - 1] == fs@[k as int]);
        assert(decreases_to!(fs@ => fs@[k as int].value));
        let one = validate_compile_time_structure(&fs[k].value, globals, description, diagnostics);
        valid = valid && one;
        assert(findings(diagnostics@) =~= findings(old(diagnostics)@) + initializer_findings(prefix, globals@, description@));
        k += 1;
    }
    assert(fs@.subrange(0, k as int) == fs@);
    valid
}

} // verus!
