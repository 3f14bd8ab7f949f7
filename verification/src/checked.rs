//! The front end as one step: lexing, parsing, resolving array lengths and checking, keeping
//! the program only when nothing was found.
use vstd::prelude::*;
use vstd::string::StringSliceAdditionalSpecFns;

use crate::ast::{Program, ValueType};
use crate::diagnostic::{Diagnostic, Span};
use crate::lexer::{lemma_lexed_well_formed, lex, lexed, Token, TokenView};
use crate::parser::{at_token, lengths_unresolved_only};
use crate::parser::parse;
use crate::sema::bodies::{
    check, constant_table, constant_types, function_table, predefined_values, predefined_values_spec, program_findings,
    signature_views, signatures, typed_views,
};
use crate::sema::{findings, first_occurrences};
use crate::sema::evaluation::{constants_pass, evaluated_integers, initial_values_of, integer_values, InitialValues};
use crate::sema::lengths::{constant_kinds, integer_constants, resolution_findings, resolve_program, resolved_program};
use crate::sema::typing::{named_values, Env, Findings, Signature};
use crate::sema::program_types;

verus! {

/// A program that lexed, parsed and checked without a finding. Its syntax tree can be read but
/// not changed.
pub struct CheckedProgram {
    ast: Program,
    values: InitialValues,
}

impl CheckedProgram {
    /// The values held are those of the program held.
    #[verifier::type_invariant]
    spec fn values_match(self) -> bool {
        initial_values_of(self.ast, self.values)
    }

    /// The checked syntax tree.
    pub closed spec fn program(self) -> Program {
        self.ast
    }

    /// The values the program's constants and globals start with.
    pub closed spec fn initial(self) -> InitialValues {
        self.values
    }

    /// Borrows the values the program's constants and globals start with.
    pub fn values(&self) -> (values: &InitialValues)
        ensures
            *values == self.initial(),
            initial_values_of(self.program(), self.initial()),
    {
        proof {
            use_type_invariant(self);
        }
        &self.values
    }

    /// Borrows the checked syntax tree.
    pub fn ast(&self) -> (ast: &Program)
        ensures
            *ast == self.program(),
    {
        &self.ast
    }
}

/// Whether tables are the ones a resolved program's initializers and bodies see: its functions,
/// its constants' types, the predefined values, and the integer values evaluating its constants
/// gives.
pub open spec fn tables_of(
    program: Program,
    functions: Vec<(String, Signature)>,
    constants: Vec<(String, ValueType)>,
    predefined: Vec<(String, i32)>,
    evaluated: Vec<(String, i32)>,
) -> bool {
    &&& signature_views(functions@) == signatures(program)
    &&& typed_views(constants@) == constant_types(program)
    &&& named_values(predefined@) == predefined_values_spec()
    &&& named_values(evaluated@) == integer_values(constants_pass(program, program.constants@).0.values)
}

/// What checking a parsed program finds: resolving its lengths, then checking the resolved
/// program `resolved` with the given tables.
pub open spec fn analysis_findings(
    parsed: Program,
    resolved: Program,
    functions: Vec<(String, Signature)>,
    constants: Vec<(String, ValueType)>,
    predefined: Vec<(String, i32)>,
    evaluated: Vec<(String, i32)>,
) -> Findings {
    resolution_findings(constant_kinds(parsed.constants@), integer_constants(parsed.constants@), program_types(parsed))
        + program_findings(
        Env {
            globals: &resolved.globals,
            constants: &constants,
            structs: &resolved.structs,
            functions: &functions,
            values: &predefined,
        },
        Env {
            globals: &resolved.globals,
            constants: &constants,
            structs: &resolved.structs,
            functions: &functions,
            values: &evaluated,
        },
        resolved,
    )
}

/// Whether `program` is what resolving the lengths of some parsed program gave, and checking
/// found nothing in either step, with the tables the program's initializers and bodies see.
pub open spec fn checks_clean(program: Program) -> bool {
    exists|
        parsed: Program,
        functions: Vec<(String, Signature)>,
        constants: Vec<(String, ValueType)>,
        predefined: Vec<(String, i32)>,
        evaluated: Vec<(String, i32)>,
    |
        #![trigger analysis_findings(parsed, program, functions, constants, predefined, evaluated)]
        lengths_unresolved_only(parsed) && resolved_program(constant_kinds(parsed.constants@), integer_constants(parsed.constants@), parsed, program)
            && tables_of(program, functions, constants, predefined, evaluated) && analysis_findings(
            parsed,
            program,
            functions,
            constants,
            predefined,
            evaluated,
        ) == Seq::<(Seq<char>, Span)>::empty()
}

/// Whether `reported` is, once each, what resolving some parsed program's lengths and checking
/// the result found, with the tables the resolved program's initializers and bodies see.
pub open spec fn check_reports(reported: Findings) -> bool {
    exists|
        parsed: Program,
        resolved: Program,
        functions: Vec<(String, Signature)>,
        constants: Vec<(String, ValueType)>,
        predefined: Vec<(String, i32)>,
        evaluated: Vec<(String, i32)>,
    |
        #![trigger analysis_findings(parsed, resolved, functions, constants, predefined, evaluated)]
        resolved_program(constant_kinds(parsed.constants@), integer_constants(parsed.constants@), parsed, resolved)
            && tables_of(resolved, functions, constants, predefined, evaluated) && reported == first_occurrences(
            analysis_findings(parsed, resolved, functions, constants, predefined, evaluated),
        )
}

/// Whether `ds` is the one diagnostic of a parse of the lexed tokens, at one of them.
pub open spec fn parse_refused(source: Seq<u8>, ds: Seq<Diagnostic>) -> bool {
    exists|tokens: Seq<Token>|
        lexed(source) == Ok::<Seq<TokenView>, Seq<(Seq<char>, Span)>>(tokens.map_values(|k: Token| k@)) && ds.len() == 1
            && #[trigger] at_token(ds[0].span, tokens)
}

/// Lexes, parses, resolves and checks a source file, with `float_bits` giving the `f32` bit
/// pattern of floating-point literals by their text. Lexing errors come back as the lexer
/// reports them; a checked program comes back only when resolving and checking found nothing.
pub fn analyze(source: &str, float_bits: Vec<(String, u32)>) -> (result: Result<CheckedProgram, Vec<Diagnostic>>)
    ensures
        result matches Ok(c) ==> c.program().float_bits == float_bits,
        lexed(source.spec_bytes()) matches Err(errors) ==> result matches Err(ds) && ds@.map_values(
            |d: Diagnostic| (d.message@, d.span),
        ) == errors,
        result matches Ok(c) ==> lexed(source.spec_bytes()) is Ok && checks_clean(c.program()),
        result matches Err(ds) ==> ds@.len() > 0 && (lexed(source.spec_bytes()) is Err || parse_refused(
            source.spec_bytes(),
            ds@,
        ) || check_reports(findings(ds@))),
{
    let tokens = match lex(source) {
        Ok(tokens) => tokens,
        Err(errors) => {
            assert(errors@.map_values(|d: Diagnostic| (d.message@, d.span)) =~= errors@.map_values(
                |x: Diagnostic| crate::lexer::diagnostic_view(x),
            ));
            return Err(errors);
        },
    };
    proof {
        lemma_lexed_well_formed(source, tokens@);
    }
    let ghost tokens_view = tokens@;
    let mut parsed = match parse(tokens) {
        Ok(program) => program,
        Err(errors) => {
            assert(at_token(errors@[0].span, tokens_view));
            return Err(errors);
        },
    };
    parsed.float_bits = float_bits;
    let ghost original = parsed;
    let mut earlier: Vec<Diagnostic> = Vec::new();
    let program = resolve_program(parsed, &mut earlier);
    let functions = function_table(&program);
    let constants = constant_table(&program);
    let predefined = predefined_values();
    let evaluated = evaluated_integers(&program);
    let initializers = Env {
        globals: &program.globals,
        constants: &constants,
        structs: &program.structs,
        functions: &functions,
        values: &predefined,
    };
    let bodies = Env {
        globals: &program.globals,
        constants: &constants,
        structs: &program.structs,
        functions: &functions,
        values: &evaluated,
    };
    let ghost program_after = program;
    assert(findings(earlier@) =~= resolution_findings(
        constant_kinds(original.constants@),
        integer_constants(original.constants@),
        program_types(original),
    ));
    match check(&program, &initializers, &bodies, earlier) {
        Ok(values) => {
            let checked = CheckedProgram { ast: program, values };
            assert(analysis_findings(original, checked.program(), functions, constants, predefined, evaluated) =~= Seq::<
                (Seq<char>, Span),
            >::empty());
            assert(tables_of(checked.program(), functions, constants, predefined, evaluated));
            assert(resolved_program(
                constant_kinds(original.constants@),
                integer_constants(original.constants@),
                original,
                checked.program(),
            ));
            assert(lexed(source.spec_bytes()) is Ok);
            assert(checks_clean(checked.program()));
            Ok(checked)
        },
        Err(ds) => {
            assert(check_reports(findings(ds@))) by {
                assert(findings(ds@) == first_occurrences(
                    analysis_findings(original, program_after, functions, constants, predefined, evaluated),
                ));
            }
            Err(ds)
        },
    }
}

} // verus!
