use speck::ast::{ArrayLength, Program, StructDecl, StructField, ValueType};
use speck::diagnostic::{Diagnostic, Span};
use speck::lexer::lex;
use speck::parser::parse;
use speck::sema::declarations::check_declarations;
use speck::sema::{
    block_returns, deduplicate_diagnostics, positive_array_length, push_unique_diagnostic,
    StructTypeAnalysis,
};

fn program(source: &str) -> Program {
    parse(lex(source).expect("lexing should pass")).expect("parsing should pass")
}

fn messages(source: &str) -> Vec<String> {
    check_declarations(&program(source)).into_iter().map(|d| d.message).collect()
}

#[test]
fn reports_top_level_name_collisions() {
    let errors = messages(
        r#"game "Bad"
const BAD: i32 = runtime()
const SAME: i32 = 1
const SAME: i32 = 2
let SAME: i32 = 3
fn SAME() -> i32 { return 4 }
fn runtime() -> i32 { return 1 }
start {}
update(dt: f32) {}
draw {}
"#,
    );
    assert!(errors.iter().any(|e| e.contains("constant `SAME` is declared more than once")));
    assert!(errors.iter().any(|e| e.contains("global `SAME` conflicts")));
    assert!(errors.iter().any(|e| e.contains("function `SAME` conflicts")));
    assert!(errors.iter().any(|e| e.contains("constant expressions cannot call function `runtime`")));
}

#[test]
fn constant_initializers_cannot_read_globals_or_call() {
    let errors = messages(
        r#"game "Bad"
let mutable: i32 = 1
const CALL: bool = false && runtime()
const GLOBAL: bool = true || mutable == 1
fn runtime() -> bool { return true }
start {}
update(dt: f32) {}
draw {}
"#,
    );
    assert!(errors.iter().any(|e| e.contains("constant expressions cannot call function `runtime`")));
    assert!(errors
        .iter()
        .any(|e| e.contains("constant expressions cannot reference mutable global `mutable`")));
}

#[test]
fn predefined_and_runtime_names_are_taken() {
    let errors = messages(
        r#"game "Bad input"
const KEY_W: i32 = 100
let KEY_A: i32 = 1
fn KEY_S() -> void {}
fn quit() -> void {}
start {}
update(dt: f32) {}
draw {}
"#,
    );
    assert!(errors.contains(&"constant `KEY_W` conflicts with a predefined key constant".to_string()));
    assert!(errors.contains(&"global `KEY_A` conflicts with an existing predefined constant".to_string()));
    assert!(errors.contains(&"function `KEY_S` conflicts with an existing predefined constant".to_string()));
    assert!(errors.contains(&"function `quit` conflicts with an existing function".to_string()));
}

#[test]
fn entry_points_are_counted() {
    let errors = messages("game \"E\" start {} start {} update(dt: i32) {}");
    assert_eq!(
        errors,
        vec![
            "game declares `start` more than once".to_string(),
            "game is missing its `draw` entry point".to_string(),
        ]
    );
    assert!(messages("game \"Ok\" start {} update(dt: f32) {} draw {}").is_empty());
}

#[test]
fn structs_fields_unknown_types_and_recursion() {
    let errors = messages(
        r#"game "S"
struct Node { next: Node, value: i32, value: i32 }
struct Pair { a: Missing }
struct Pair { a: i32 }
let start_value: Unknown = 1
start {} update(dt: f32) {} draw {}
"#,
    );
    assert_eq!(
        errors,
        vec![
            "field `value` is declared more than once in struct `Node`".to_string(),
            "struct `Pair` is declared more than once".to_string(),
            "unknown struct type `Missing`".to_string(),
            "unknown struct type `Unknown`".to_string(),
            "recursive value type is not supported: struct `Node` contains itself".to_string(),
        ]
    );
}

#[test]
fn struct_conflicts_name_the_earlier_kind() {
    let errors = messages("game \"S\" struct sin { x: i32 } start {} update(dt: f32) {} draw {}");
    assert_eq!(errors, vec!["struct `sin` conflicts with an existing function".to_string()]);
}

#[test]
fn array_lengths_must_be_positive_i32_values() {
    assert_eq!(positive_array_length(3, Span::new(0, 1)).unwrap(), 3);
    let error = positive_array_length(-2, Span::new(4, 6)).unwrap_err();
    assert_eq!(error.message, "array length must be positive, found -2");
    assert_eq!(error.span, Span::new(4, 6));
    assert_eq!(
        positive_array_length(i64::from(i32::MAX) + 1, Span::new(0, 0)).unwrap_err().message,
        "array length exceeds the maximum i32 index range"
    );
    assert_eq!(positive_array_length(i64::from(i32::MAX), Span::new(0, 0)).unwrap(), 2147483647);
}

#[test]
fn repeated_diagnostics_are_reported_once() {
    let a = Diagnostic::new("a".to_string(), Span::new(0, 1));
    let b = Diagnostic::new("b".to_string(), Span::new(0, 1));
    let mut list = vec![a.clone(), b.clone(), a.clone(), Diagnostic::new("a".to_string(), Span::new(1, 2))];
    deduplicate_diagnostics(&mut list);
    assert_eq!(list.len(), 3);
    assert_eq!(list[0], a);
    assert_eq!(list[1], b);
    let mut unique = vec![a.clone()];
    push_unique_diagnostic(&mut unique, a.clone());
    push_unique_diagnostic(&mut unique, b.clone());
    assert_eq!(unique, vec![a, b]);
}

#[test]
fn blocks_return_when_every_path_does() {
    let returning = program("game \"R\" fn f(x: i32) -> i32 { if x > 0 { return 1 } else { return 2 } } start {} update(dt: f32) {} draw {}");
    assert!(block_returns(&returning.functions[0].body));
    let partial = program("game \"R\" fn f(x: i32) -> i32 { if x > 0 { return 1 } } start {} update(dt: f32) {} draw {}");
    assert!(!block_returns(&partial.functions[0].body));
    let looping = program("game \"R\" fn f(x: i32) -> i32 { while x > 0 { return 1 } } start {} update(dt: f32) {} draw {}");
    assert!(!block_returns(&looping.functions[0].body));
}

fn field(name: &str, ty: ValueType) -> StructField {
    StructField { name: name.into(), ty, span: Span::new(0, 0) }
}

#[test]
fn failed_array_lengths_spread_to_containing_structs() {
    let decls = vec![
        StructDecl {
            name: "Inner".into(),
            fields: vec![field(
                "cells",
                ValueType::Array { element: Box::new(ValueType::I32), length: ArrayLength::Invalid },
            )],
            span: Span::new(0, 1),
        },
        StructDecl { name: "Outer".into(), fields: vec![field("inner", ValueType::Struct("Inner".into()))], span: Span::new(2, 3) },
        StructDecl { name: "Plain".into(), fields: vec![field("x", ValueType::F32)], span: Span::new(4, 5) },
    ];
    let mut diagnostics = Vec::new();
    let analysis = StructTypeAnalysis::new(&decls, &mut diagnostics);
    assert!(diagnostics.is_empty());
    assert!(analysis.resolution_failed(&ValueType::Struct("Outer".into())));
    assert!(analysis.resolution_failed(&ValueType::Array {
        element: Box::new(ValueType::Struct("Inner".into())),
        length: ArrayLength::Resolved(2),
    }));
    assert!(!analysis.resolution_failed(&ValueType::Struct("Plain".into())));
}

#[test]
fn mutual_recursion_is_reported_for_each_member() {
    let decls = vec![
        StructDecl { name: "A".into(), fields: vec![field("b", ValueType::Struct("B".into()))], span: Span::new(0, 1) },
        StructDecl { name: "B".into(), fields: vec![field("a", ValueType::Struct("A".into()))], span: Span::new(2, 3) },
        StructDecl { name: "C".into(), fields: vec![field("a", ValueType::Struct("A".into()))], span: Span::new(4, 5) },
    ];
    let mut diagnostics = Vec::new();
    StructTypeAnalysis::new(&decls, &mut diagnostics);
    let reported: Vec<String> = diagnostics.into_iter().map(|d| d.message).collect();
    assert_eq!(
        reported,
        vec![
            "recursive value type is not supported: struct `A` contains itself".to_string(),
            "recursive value type is not supported: struct `B` contains itself".to_string(),
        ]
    );
}
