use speck::ast::{
    ArrayLength, AssignOp, BinaryOp, Expr, ExprKind, FunctionKind, Program, ReturnType, StmtKind,
    ValueType,
};
use speck::diagnostic::Span;
use speck::lexer::lex;
use speck::parser::parse;

fn parse_source(source: &str) -> Program {
    parse(lex(source).expect("lexing should pass")).expect("parsing should pass")
}

#[test]
fn multiplication_binds_more_tightly_than_addition() {
    let program = parse_source(
        "game \"Precedence\"\nlet result: i32 = 1 + 2 * 3\nstart {}\nupdate(dt: f32) {}\ndraw {}",
    );
    let ExprKind::Binary { op, right, .. } = &program.globals[0].init.kind else {
        panic!("expected a binary expression");
    };
    assert_eq!(*op, BinaryOp::Add);
    assert!(matches!(right.kind, ExprKind::Binary { op: BinaryOp::Multiply, .. }));
}

#[test]
fn parses_functions_control_flow_and_calls() {
    let program = parse_source(
        r#"game "Flow"
fn choose(value: i32) -> i32 {
    if value > 0 { return value } else { return 0 }
}
start { let x: i32 = 2; while x > 0 { x = x - 1 } print_i32(choose(x)) }
update(dt: f32) {}
draw {}
"#,
    );
    assert_eq!(program.functions.len(), 4);
    assert_eq!(program.functions[0].name, "choose");
    assert!(matches!(program.functions[0].body[0].kind, StmtKind::If { .. }));
}

#[test]
fn parses_array_types_literals_indexing_and_indexed_assignment() {
    let program = parse_source(
        r#"game "Arrays"
const COUNT: i32 = 3
let values: [i32; COUNT] = [1, 2, 3]
start { let value: i32 = values[1] values[2] += value }
update(dt: f32) {}
draw {}
"#,
    );
    assert!(matches!(
        program.globals[0].ty,
        ValueType::Array { length: ArrayLength::Constant { .. }, .. }
    ));
    assert!(matches!(program.globals[0].init.kind, ExprKind::ArrayLiteral(_)));
    assert!(matches!(
        program.functions[0].body[1].kind,
        StmtKind::Assign { target: Expr { kind: ExprKind::Index { .. }, .. }, op: AssignOp::Add, .. }
    ));
}

#[test]
fn parses_struct_declarations_literals_fields_and_field_assignment() {
    let program = parse_source(
        r#"game "Structs"
struct Point { x: i32, y: i32 }
let point: Point = Point { y: 2, x: 1 }
start { let x: i32 = point.x point.y += x }
update(dt: f32) {}
draw {}
"#,
    );
    assert_eq!(program.structs[0].name, "Point");
    assert_eq!(program.structs[0].fields.len(), 2);
    assert!(matches!(program.globals[0].init.kind, ExprKind::StructLiteral { .. }));
    assert!(matches!(
        program.functions[0].body[1].kind,
        StmtKind::Assign { target: Expr { kind: ExprKind::Field { .. }, .. }, op: AssignOp::Add, .. }
    ));
}

#[test]
fn reports_missing_block_close() {
    let tokens = lex("game \"Oops\"\nstart {").expect("lexing should pass");
    let errors = parse(tokens).expect_err("parsing should fail");
    assert!(errors[0].message.contains("expected `}`"));
}

#[test]
fn parses_constants_void_conversions_and_compound_assignments() {
    let program = parse_source(
        r#"game "Syntax"
const LIMIT: i32 = 10
let x: f32 = f32(LIMIT)
fn effect() -> void { return }
start { x += 1.0 x -= 1.0 x *= 2.0 x /= 2.0 effect() }
update(dt: f32) {}
draw {}
"#,
    );
    assert_eq!(program.constants.len(), 1);
    assert_eq!(program.functions[0].return_type, ReturnType::Void);
    assert!(matches!(
        program.globals[0].init.kind,
        ExprKind::Conversion { target: ValueType::F32, .. }
    ));
    let operators = program.functions[1]
        .body
        .iter()
        .filter_map(|statement| match statement.kind {
            StmtKind::Assign { op, .. } => Some(op),
            _ => None,
        })
        .collect::<Vec<_>>();
    assert_eq!(
        operators,
        vec![AssignOp::Add, AssignOp::Subtract, AssignOp::Multiply, AssignOp::Divide]
    );
}

#[test]
fn boolean_composition_has_the_documented_precedence() {
    let program = parse_source(
        "game \"Booleans\"\nconst VALUE: bool = false || true && 1 == 1\nstart {}\nupdate(dt: f32) {}\ndraw {}",
    );
    let ExprKind::Binary { op, right, .. } = &program.constants[0].init.kind else {
        panic!("expected logical-or expression");
    };
    assert_eq!(*op, BinaryOp::LogicalOr);
    let ExprKind::Binary { op: right_op, right: equality, .. } = &right.kind else {
        panic!("expected logical-and expression");
    };
    assert_eq!(*right_op, BinaryOp::LogicalAnd);
    assert!(matches!(equality.kind, ExprKind::Binary { op: BinaryOp::Equal, .. }));
}

#[test]
fn rejects_void_in_value_type_positions() {
    for source in [
        "game \"Bad\"\nlet value: void = 1\nstart {}\nupdate(dt: f32) {}\ndraw {}",
        "game \"Bad\"\nconst VALUE: void = 1\nstart {}\nupdate(dt: f32) {}\ndraw {}",
        "game \"Bad\"\nfn bad(value: void) -> void {}\nstart {}\nupdate(dt: f32) {}\ndraw {}",
        "game \"Bad\"\nstart { let value: void = 1 }\nupdate(dt: f32) {}\ndraw {}",
    ] {
        let tokens = lex(source).expect("lexing should pass");
        let errors = parse(tokens).expect_err("void value type should fail");
        assert!(errors[0].message.contains("only valid as a function return type"));
    }
}

#[test]
fn spans_cover_each_construct() {
    let source = "game \"S\";\nlet v: i32 = -(1 + 2) * f(3);\nstart { v = v }\nupdate(dt: f32) {}\ndraw {}";
    let program = parse_source(source);
    assert_eq!(program.title, "S");
    assert_eq!(program.title_span, Span::new(5, 8));
    let init = &program.globals[0].init;
    assert_eq!(&source[init.span.start..init.span.end], "-(1 + 2) * f(3)");
    assert_eq!(&source[program.globals[0].span.start..program.globals[0].span.end], "let v: i32 = -(1 + 2) * f(3);");
    let start = &program.functions[0];
    assert_eq!(start.kind, FunctionKind::Start);
    assert_eq!(&source[start.span.start..start.span.end], "start { v = v }");
    assert_eq!(program.functions[1].params.len(), 1);
}

#[test]
fn struct_literals_need_a_declared_struct_or_a_field_pattern() {
    let program = parse_source(
        "game \"L\"\nstart { let a: i32 = 1 if a { a = 2 } let p: P = P { x: 1 } }\nupdate(dt: f32) {}\ndraw {}",
    );
    let body = &program.functions[0].body;
    assert!(matches!(&body[1].kind, StmtKind::If { condition: Expr { kind: ExprKind::Variable(_), .. }, .. }));
    assert!(matches!(&body[2].kind, StmtKind::Let { init: Expr { kind: ExprKind::StructLiteral { .. }, .. }, .. }));
}

#[test]
fn errors_name_what_was_expected() {
    let errors = parse(lex("start {}").unwrap()).unwrap_err();
    assert_eq!(errors.len(), 1);
    assert_eq!(errors[0].message, "expected `game` at the start of the file");
    assert_eq!(errors[0].span, Span::new(0, 5));
    let errors = parse(lex("game 3").unwrap()).unwrap_err();
    assert_eq!(errors[0].message, "expected a quoted game title after `game`");
    let errors = parse(lex("game \"T\" 5").unwrap()).unwrap_err();
    assert_eq!(
        errors[0].message,
        "expected a top-level `struct`, `const`, `let`, `fn`, `start`, `update`, or `draw` declaration"
    );
    let errors = parse(lex("game \"T\" let x: [i32; -y] = 1").unwrap()).unwrap_err();
    assert_eq!(errors[0].message, "expected an integer literal after `-` in array length");
    let errors = parse(lex("game \"T\" start { 1 + }").unwrap()).unwrap_err();
    assert_eq!(errors[0].message, "expected an expression");
}

#[test]
fn array_lengths_keep_their_sign_and_name() {
    let program = parse_source("game \"A\" let a: [[bool; -2]; N] = [] start {} update(dt: f32) {} draw {}");
    let ValueType::Array { element, length: ArrayLength::Constant { name, .. } } = &program.globals[0].ty else {
        panic!("expected an array with a named length");
    };
    assert_eq!(name, "N");
    assert!(matches!(**element, ValueType::Array { length: ArrayLength::Literal { value: -2, .. }, .. }));
}
