//! The Speck compiler's verified core: lexing, source maps and diagnostics, declaration types,
//! runtime built-ins, the development viewer protocol and state machines, asset validation, and
//! the toolchain policy that turns LLVM IR into games.
use vstd::prelude::*;
use vstd::string::StringSliceAdditionalSpecFns;

pub mod ast;
pub mod audio_assets;
pub mod builtins;
pub mod checked;
pub mod codegen;
pub mod dev;
pub mod diagnostic;
pub mod emit;
pub mod graph;
pub mod keyboard;
pub mod lexer;
pub mod names;
pub mod parser;
pub mod reading;
pub mod resolution;
pub mod sema;
pub mod source;
pub mod text;
pub mod toolchain;

pub use crate::checked::{analyze, CheckedProgram};
pub use crate::emit::{compile_to_llvm, compile_to_llvm_for_target};
use crate::diagnostic::{rendered, Diagnostic};
use crate::text::push_str;
use crate::toolchain::{join_with, lemma_join_with_concat};

verus! {

/// The rendered text of each diagnostic against one file.
pub open spec fn rendered_all(path: Seq<char>, source: Seq<u8>, diagnostics: Seq<Diagnostic>) -> Seq<
    Seq<char>,
> {
    diagnostics.map_values(|d: Diagnostic| rendered(path, source, d.message@, d.span))
}

/// Renders every diagnostic against one file, separated by newlines.
pub fn render_diagnostics(path: &str, source: &str, diagnostics: &[Diagnostic]) -> (text: String)
    requires
        source.spec_bytes().len() < usize::MAX,
    ensures
        text@ == join_with(rendered_all(path@, source.spec_bytes(), diagnostics@), "\n"@),
{
    let ghost parts = rendered_all(path@, source.spec_bytes(), diagnostics@);
    let mut text = String::new();
    let mut k: usize = 0;
    while k < diagnostics.len()
        invariant
            k <= diagnostics@.len(),
            source.spec_bytes().len() < usize::MAX,
            parts == rendered_all(path@, source.spec_bytes(), diagnostics@),
            text@ == join_with(parts.subrange(0, k as int), "\n"@),
        decreases diagnostics.len() - k,
    {
        if k > 0 {
            push_str(&mut text, "\n");
        }
        let one = diagnostics[k].render(path, source);
        push_str(&mut text, one.as_str());
        assert(parts.subrange(0, k + 1).drop_last() == parts.subrange(0, k as int));
        k += 1;
    }
    assert(parts.subrange(0, k as int) == parts);
    text
}

/// Rendering no diagnostic gives the empty text, rendering one gives its own rendering, and
/// rendering two non-empty lists one after the other gives the two renderings separated by a
/// newline.
pub proof fn lemma_rendering_splits(path: Seq<char>, source: Seq<u8>, a: Seq<Diagnostic>, b: Seq<Diagnostic>)
    ensures
        join_with(rendered_all(path, source, Seq::<Diagnostic>::empty()), "\n"@) == Seq::<char>::empty(),
        a.len() == 1 ==> join_with(rendered_all(path, source, a), "\n"@) == rendered(
            path,
            source,
            a[0].message@,
            a[0].span,
        ),
        a.len() > 0 && b.len() > 0 ==> join_with(rendered_all(path, source, a + b), "\n"@) == join_with(
            rendered_all(path, source, a),
            "\n"@,
        ) + "\n"@ + join_with(rendered_all(path, source, b), "\n"@),
{
    assert(rendered_all(path, source, Seq::<Diagnostic>::empty()) =~= Seq::<Seq<char>>::empty());
    if a.len() > 0 && b.len() > 0 {
        assert(rendered_all(path, source, a + b) =~= rendered_all(path, source, a) + rendered_all(path, source, b));
        lemma_join_with_concat(rendered_all(path, source, a), rendered_all(path, source, b), "\n"@);
    }
}

} // verus!
