use speck::checked::{analyze, CheckedProgram};
use speck::diagnostic::Diagnostic;
use speck::lexer::{lex, TokenKind};
use speck::sema::evaluation::{constant_values, global_values, undetermined_initializers, ConstValue, Values};
use speck::sema::typing::float_literal_finite;

/// The `f32` bits of each floating-point literal of a source, by its text.
fn float_bits(source: &str) -> Vec<(String, u32)> {
    match lex(source) {
        Ok(tokens) => tokens
            .iter()
            .filter_map(|token| match &token.kind {
                TokenKind::Float(text) => Some((text.clone(), text.parse::<f32>().unwrap().to_bits())),
                _ => None,
            })
            .collect(),
        Err(_) => Vec::new(),
    }
}

fn analyze_source(source: &str) -> Result<CheckedProgram, Vec<Diagnostic>> {
    analyze(source, float_bits(source))
}

fn outcome(source: &str) -> Result<(), Vec<Diagnostic>> {
    analyze_source(source).map(|_| ())
}

fn errors(source: &str) -> Vec<Diagnostic> {
    outcome(source).expect_err("semantic checking should fail")
}

fn checked(source: &str) {
    let program = analyze_source(source).expect("semantic checking should pass");
    assert!(!program.ast().title.is_empty());
}

fn messages(source: &str) -> Vec<String> {
    errors(source).into_iter().map(|d| d.message).collect()
}

#[test]
fn reports_unknown_variable_with_source_span() {
    let source = "game \"Bad\"\nstart { missing = 1 }\nupdate(dt: f32) {}\ndraw {}";
    let errors = errors(source);
    assert!(errors.iter().any(|error| error.message.contains("unknown variable `missing`")));
    let rendered = errors[0].render("bad.spk", source);
    assert!(rendered.contains("bad.spk:2:"));
}

#[test]
fn rejects_mismatched_assignment_and_implicit_conversion() {
    let errors = messages(
        "game \"Bad\"\nlet n: i32 = 1\nlet x: f32 = 10\nstart { n = 1.0 }\nupdate(dt: f32) {}\ndraw {}",
    );
    assert!(errors.iter().any(|e| e.contains("cannot assign `f32`")));
    assert!(errors.iter().any(|e| e.contains("global `x` has type `f32`, but its initializer has type `i32`")));
}

#[test]
fn requires_return_on_all_paths() {
    let errors = messages(
        "game \"Bad\"\nfn value(flag: bool) -> i32 { if flag { return 1 } }\nstart {}\nupdate(dt: f32) {}\ndraw {}",
    );
    assert!(errors.iter().any(|e| e.contains("may finish without returning")));
}

#[test]
fn rejects_non_f32_update_delta() {
    let errors = messages("game \"Bad\"\nstart {}\nupdate(dt: i32) {}\ndraw {}");
    assert!(errors.iter().any(|e| e.contains("must take exactly one `f32`")));
}

#[test]
fn update_signatures_are_reported_with_their_function() {
    let errors = messages(
        "game \"Bad\"\nlet x: f32 = 1\nstart { a = 1 }\nupdate(dt: i32) { b = 2 }\ndraw {}",
    );
    assert_eq!(
        errors,
        vec![
            "global `x` has type `f32`, but its initializer has type `i32`".to_string(),
            "cannot assign to unknown variable `a`".to_string(),
            "`update` must take exactly one `f32` frame-delta parameter".to_string(),
            "cannot assign to unknown variable `b`".to_string(),
        ]
    );
}

#[test]
fn type_checks_graphics_builtin_arguments() {
    let errors = messages(
        "game \"Bad\"\nstart {}\nupdate(dt: f32) {}\ndraw { clear_rgb(0, true, 0) fill_rect(1, 2, 3) }",
    );
    assert!(errors.iter().any(|e| e.contains("argument 2 to `clear_rgb` expects `i32`, but found `bool`")));
    assert!(errors.iter().any(|e| e.contains("function `fill_rect` expects 7 argument(s), but received 3")));
}

#[test]
fn validates_conversions_and_void_values() {
    checked(
        r#"game "Conversions"
fn show(value: i32) -> void { print_i32(value) return }
let a: f32 = f32(10)
let b: i32 = i32(4.75)
start { show(i32(a)) }
update(dt: f32) {}
draw {}
"#,
    );
    let errors = messages(
        r#"game "Bad"
fn show() -> void {}
let wrong: i32 = i32(true)
start { let value: i32 = show() i32() f32(1, 2) }
update(dt: f32) {}
draw {}
"#,
    );
    assert!(errors.iter().any(|e| e.contains("cannot convert `bool`")));
    assert!(errors.iter().any(|e| e.contains("requires a value, but found `void`")));
    assert!(errors.iter().any(|e| e.contains("expects 1 argument")));
}

#[test]
fn validates_compound_assignment_and_constant_immutability() {
    checked(
        r#"game "Mutation"
let x: i32 = 1
let y: f32 = 2.0
start { x += 2 x -= 1 y *= 2.0 y /= 2.0 }
update(dt: f32) {}
draw {}
"#,
    );
    let errors = messages(
        r#"game "Bad"
const LIMIT: i32 = 2
let flag: bool = false
let x: i32 = 1
start { LIMIT += 1 flag += true x += 1.0 LIMIT = 3 }
update(dt: f32) {}
draw {}
"#,
    );
    assert!(errors.iter().any(|e| e.contains("compound assignment on constant `LIMIT`")));
    assert!(errors.iter().any(|e| e.contains("compound assignment requires a numeric target")));
    assert!(errors.iter().any(|e| e.contains("compound assignment to `x` expects `i32`, but found `f32`")));
    assert!(errors.iter().any(|e| e.contains("cannot assign to constant `LIMIT`")));
}

#[test]
fn validates_boolean_operands_and_return_forms() {
    let errors = messages(
        r#"game "Bad"
fn value() -> i32 { return }
fn effect() -> void { return 1 }
fn other() -> i32 { return effect() }
start { if 1 && true {} if effect() {} let bad: i32 = effect() }
update(dt: f32) {}
draw {}
"#,
    );
    assert!(errors.iter().any(|e| e.contains("Boolean operator requires `bool`")));
    assert!(errors.iter().any(|e| e.contains("return requires a value of type `i32`")));
    assert!(errors.iter().any(|e| e.contains("void function cannot return a value")));
    assert!(errors.iter().any(|e| e.contains("return expects `i32`, but found `void`")));
    assert!(errors.iter().any(|e| e.contains("requires a value, but found `void`")));
}

#[test]
fn reports_top_level_name_collisions_and_invalid_initializers() {
    let errors = messages(
        r#"game "Bad"
const BAD: i32 = runtime()
const SAME: i32 = 1
const SAME: i32 = 2
let SAME: i32 = 3
fn SAME() -> i32 { return 4 }
fn runtime() -> i32 { return 1 }
start {}
update(dt: f32) {}
draw {}
"#,
    );
    assert!(errors.iter().any(|e| e.contains("constant `SAME` is declared more than once")));
    assert!(errors.iter().any(|e| e.contains("global `SAME` conflicts")));
    assert!(errors.iter().any(|e| e.contains("function `SAME` conflicts")));
    assert!(errors.iter().any(|e| e.contains("constant expressions cannot call function `runtime`")));
}

#[test]
fn rejects_disallowed_constant_dependencies_even_when_short_circuited() {
    let errors = messages(
        r#"game "Bad"
let mutable: i32 = 1
const CALL: bool = false && runtime()
const GLOBAL: bool = true || mutable == 1
fn runtime() -> bool { return true }
start {}
update(dt: f32) {}
draw {}
"#,
    );
    assert!(errors.iter().any(|e| e.contains("constant expressions cannot call function `runtime`")));
    assert!(errors.iter().any(|e| e.contains("constant expressions cannot reference mutable global `mutable`")));
}

#[test]
fn validates_input_builtins_and_predefined_key_constants() {
    checked(
        r#"game "Input"
const FIRST: i32 = KEY_W
let combined: i32 = KEY_A + KEY_S + KEY_D + KEY_UP + KEY_DOWN + KEY_LEFT + KEY_RIGHT + KEY_SPACE + KEY_ENTER + KEY_ESCAPE
start { quit() }
update(dt: f32) {
    if key_down(KEY_W) || key_pressed(KEY_SPACE) || key_released(KEY_ENTER) {}
}
draw {}
"#,
    );
    let errors = messages(
        r#"game "Bad input"
const KEY_W: i32 = 100
let KEY_A: i32 = 1
fn KEY_S() -> void {}
start {
    key_down(true)
    key_pressed()
    key_released(KEY_D, KEY_W)
    let value: i32 = quit()
}
update(dt: f32) {}
draw {}
"#,
    );
    assert!(errors.iter().any(|e| e.contains("constant `KEY_W` conflicts with a predefined key constant")));
    assert!(errors.iter().any(|e| e.contains("global `KEY_A` conflicts with an existing predefined constant")));
    assert!(errors.iter().any(|e| e.contains("function `KEY_S` conflicts with an existing predefined constant")));
    assert!(errors.iter().any(|e| e.contains("argument 1 to `key_down` expects `i32`, but found `bool`")));
    assert!(errors.iter().any(|e| e.contains("function `key_pressed` expects 1 argument(s), but received 0")));
    assert!(errors.iter().any(|e| e.contains("function `key_released` expects 1 argument(s), but received 2")));
    assert!(errors.iter().any(|e| e.contains("variable initializer requires a value, but found `void`")));
}

#[test]
fn struct_literals_fields_and_arrays_are_checked() {
    let errors = messages(
        r#"game "Shapes"
struct Point { x: i32, y: i32 }
start {
    let p: Point = Point { x: 1, x: 2, z: 3 }
    let q: Point = Point { x: 1.5, y: 2 }
    let n: i32 = p.w
    let grid: [i32; 3] = [1, 2]
    let first: i32 = grid[3]
    let fine: i32 = grid[2]
    let b: bool = grid[true]
    let s: Shape = 1
}
update(dt: f32) {}
draw {}
"#,
    );
    assert!(errors.iter().any(|e| e == "field `x` is initialized more than once in `Point`"));
    assert!(errors.iter().any(|e| e == "type `Point` has no field named `z`"));
    assert!(errors.iter().any(|e| e == "missing initializer for field `y` of `Point`"));
    assert!(errors.iter().any(|e| e == "field `x` of `Point` expects `i32`, but found `f32`"));
    assert!(errors.iter().any(|e| e == "type `Point` has no field named `w`"));
    assert!(errors.iter().any(|e| e == "expected array length 3, found 2 elements"));
    assert!(errors.iter().any(|e| e == "constant index 3 is out of bounds for length 3"));
    assert!(!errors.iter().any(|e| e.contains("constant index 2")));
    assert!(errors.iter().any(|e| e == "array index must be i32, found `bool`"));
    assert!(errors.iter().any(|e| e == "unknown struct type `Shape`"));
}

#[test]
fn scopes_shadow_and_duplicates_are_reported() {
    let errors = messages(
        r#"game "Scopes"
fn pair(a: i32, a: f32) -> i32 { return 1 }
start {
    let v: i32 = 1
    let v: i32 = 2
    if true { let v: f32 = 1.0 v = 2.0 }
    let w: bool = v
    missing(1)
}
update(dt: f32) {}
draw {}
"#,
    );
    assert!(errors.iter().any(|e| e == "parameter `a` is declared more than once"));
    assert!(errors.iter().any(|e| e == "variable `v` is declared more than once in this block"));
    assert!(errors.iter().any(|e| e == "variable `w` has type `bool`, but its initializer has type `i32`"));
    assert!(errors.iter().any(|e| e == "unknown function `missing`"));
    assert!(!errors.iter().any(|e| e.contains("cannot assign")));
}

#[test]
fn operators_need_matching_operand_types() {
    let errors = messages(
        r#"game "Ops"
start {
    let a: i32 = 1 + 2.0
    let b: bool = true < false
    let c: bool = -true
    let d: i32 = -2147483648
    let e: i32 = 2147483648
}
update(dt: f32) {}
draw {}
"#,
    );
    assert!(errors.iter().any(|e| e == "operator operands must have the same type, found `i32` and `f32`"));
    assert!(errors.iter().any(|e| e == "ordering comparison requires numeric operands"));
    assert!(errors.iter().any(|e| e == "unary `-` requires `i32` or `f32`"));
    assert_eq!(errors.iter().filter(|e| e.as_str() == "integer literal does not fit in `i32`").count(), 1);
}

#[test]
fn float_literals_are_finite_below_the_rounding_threshold() {
    assert!(float_literal_finite("3.5"));
    assert!(float_literal_finite("340282356779733661637539395458142568447.9"));
    assert!(!float_literal_finite("340282356779733661637539395458142568448.0"));
    assert!(!float_literal_finite("1000000000000000000000000000000000000000000.0"));
}

#[test]
fn array_lengths_may_name_constants_declared_later() {
    checked(
        r#"game "Grid"
const CELLS: i32 = SIDE * SIDE
const SIDE: i32 = 2
let grid: [i32; CELLS] = [1, 2, 3, 4]
start { let last: i32 = grid[CELLS - 1] }
update(dt: f32) {}
draw {}
"#,
    );
    let errors = messages(
        r#"game "Grid"
const CELLS: i32 = SIDE * SIDE
const SIDE: i32 = 2
const RATIO: f32 = 1.5
let grid: [i32; CELLS] = [1, 2, 3, 4]
let bad: [i32; RATIO] = [1]
let zero: [i32; 0] = []
start { let past: i32 = grid[CELLS] }
update(dt: f32) {}
draw {}
"#,
    );
    assert!(errors.iter().any(|e| e == "constant index 4 is out of bounds for length 4"));
    assert!(errors.iter().any(|e| e == "array length constant `RATIO` must have type `i32`"));
    assert!(errors.iter().any(|e| e == "array length must be positive, found 0"));
}

#[test]
fn evaluates_constants_out_of_order_and_short_circuits() {
    let program = analyze_source(
        r#"game "Constants"
const AREA: i32 = WIDTH * HEIGHT
const SAFE: bool = false && (1 / 0 == 0)
const HEIGHT: i32 = 2
const WIDTH: i32 = 3
const LARGE: bool = AREA >= 6
const READY: bool = !false && LARGE
let initial: i32 = AREA
start {}
update(dt: f32) {}
draw {}
"#,
    )
    .expect("semantic checking should pass");
    let values = program.values();
    assert_eq!(values.constants[0], Some(ConstValue::I32(6)));
    assert_eq!(values.constants[1], Some(ConstValue::Bool(false)));
    assert_eq!(values.constants[4], Some(ConstValue::Bool(true)));
    assert_eq!(values.constants[5], Some(ConstValue::Bool(true)));
    assert_eq!(values.globals[0], Some(ConstValue::I32(6)));
    assert_eq!(values.constants, constant_values(program.ast()));
    assert_eq!(values.globals, global_values(program.ast()));
}

#[test]
fn rejects_constant_cycles_and_mutable_dependencies() {
    let errors = errors(
        r#"game "Bad constants"
const A: i32 = B
const B: i32 = A
let mutable: i32 = 1
const C: i32 = mutable
start {}
update(dt: f32) {}
draw {}
"#,
    );
    assert!(errors.iter().any(|error| {
        error.message.contains("cyclic constant definition")
            && error.message.contains('A')
            && error.message.contains('B')
    }));
    assert!(errors.iter().any(|error| {
        error
            .message
            .contains("cannot reference mutable global `mutable`")
    }));
}

#[test]
fn reports_constant_division_and_overflow() {
    let errors = errors(
        r#"game "Bad"
const ZERO: i32 = 1 / 0
const HUGE: i32 = 2147483647 + 1
start {}
update(dt: f32) {}
draw {}
"#,
    );
    assert!(
        errors
            .iter()
            .any(|error| error.message.contains("division by zero"))
    );
    assert!(
        errors
            .iter()
            .any(|error| error.message.contains("constant-expression overflow"))
    );
}

#[test]
fn cycles_name_every_constant_on_them() {
    let errors = messages(
        "game \"C\"\nconst A: i32 = B + 1\nconst B: i32 = C\nconst C: i32 = A\nstart {}\nupdate(dt: f32) {}\ndraw {}",
    );
    assert_eq!(errors, vec!["cyclic constant definition: A -> B -> C -> A".to_string()]);
}

#[test]
fn evaluates_constant_conversions_and_numeric_boundaries() {
    let program = analyze_source(
        r#"game "Boundaries"
const MIN: i32 = -2147483648
const MAX: i32 = 2147483647
const TRUNCATED: i32 = i32(-3.9)
const CLAMPED: i32 = i32(2147483648.0)
const FLOATED: f32 = f32(MAX)
const SAME: f32 = f32(FLOATED)
start {}
update(dt: f32) {}
draw {}
"#,
    )
    .expect("semantic checking should pass");
    let constants = constant_values(program.ast());
    assert_eq!(constants[0], Some(ConstValue::I32(i32::MIN)));
    assert_eq!(constants[1], Some(ConstValue::I32(i32::MAX)));
    assert_eq!(constants[2], Some(ConstValue::I32(-3)));
    assert_eq!(constants[3], Some(ConstValue::I32(i32::MAX)));
    assert_eq!(constants[4], Some(ConstValue::F32((i32::MAX as f32).to_bits())));
    assert_eq!(constants[5], constants[4]);
}

#[test]
fn float_conversions_negation_and_comparisons_are_exact() {
    let program = analyze_source(
        r#"game "Floats"
const NEAR: i32 = i32(2.9999999999)
const NEG: f32 = -1.5
const LOW: i32 = i32(-2147483904.0)
const SMALL: i32 = i32(0.75)
const ODD: f32 = f32(16777217)
const LESS: bool = NEG < 0.5
const ZEROS: bool = 0.0 == -0.0
const SUM: f32 = 1.5 + 2.0
let moved: f32 = SUM
start {}
update(dt: f32) {}
draw {}
"#,
    )
    .expect("semantic checking should pass");
    let constants = constant_values(program.ast());
    assert_eq!(constants[0], Some(ConstValue::I32(3)));
    assert_eq!(constants[1], Some(ConstValue::F32((-1.5f32).to_bits())));
    assert_eq!(constants[2], Some(ConstValue::I32(i32::MIN)));
    assert_eq!(constants[3], Some(ConstValue::I32(0)));
    assert_eq!(constants[4], Some(ConstValue::F32((16777217i32 as f32).to_bits())));
    assert_eq!(constants[5], Some(ConstValue::Bool(true)));
    assert_eq!(constants[6], Some(ConstValue::Bool(true)));
    assert_eq!(constants[7], None);
    assert_eq!(undetermined_initializers(program.ast()), vec!["SUM".to_string(), "moved".to_string()]);
    let errors = messages(
        "game \"Bad\"\nconst Z: f32 = 1.0 / -0.0\nstart {}\nupdate(dt: f32) {}\ndraw {}",
    );
    assert_eq!(errors, vec!["division by zero in constant expression".to_string()]);
}

#[test]
fn aggregate_constants_are_indexed_and_read_by_field() {
    let program = analyze_source(
        r#"game "Aggregates"
struct Point { x: i32, y: i32 }
const ORIGIN: Point = Point { y: 2, x: 1 }
const ROW: [i32; 3] = [4, ORIGIN.y, 6]
const PICK: i32 = ROW[1] + ORIGIN.x
let moved: i32 = ROW[2]
start {}
update(dt: f32) {}
draw {}
"#,
    )
    .expect("semantic checking should pass");
    let constants = constant_values(program.ast());
    assert_eq!(constants[2], Some(ConstValue::I32(3)));
    assert_eq!(global_values(program.ast())[0], Some(ConstValue::I32(6)));
    let errors = messages(
        "game \"Bad\"\nconst ROW: [i32; 2] = [1, 2]\nconst OUT: i32 = ROW[2]\nconst NEG: i32 = -(-2147483647 - 1)\nstart {}\nupdate(dt: f32) {}\ndraw {}",
    );
    assert_eq!(
        errors,
        vec![
            "constant index 2 is out of bounds for length 2".to_string(),
            "constant index 2 is out of bounds for length 2".to_string(),
            "constant-expression overflow".to_string(),
        ]
    );
}

#[test]
fn body_indices_see_every_evaluated_integer_constant() {
    let errors = messages(
        "game \"Bad\"\nconst ROW: [i32; 2] = [0, 5]\nconst N: i32 = ROW[1]\nstart { let a: [i32; 3] = [1, 2, 3] print_i32(a[N]) }\nupdate(dt: f32) {}\ndraw {}",
    );
    assert_eq!(errors, vec!["constant index 5 is out of bounds for length 3".to_string()]);
}

#[test]
fn wide_forward_dependencies_do_not_replay_completed_elements() {
    for count in [1000usize, 4000, 8000] {
        let elements: Vec<String> = (0..count).map(|index| format!("{index} + C{index}")).collect();
        let mut source = format!("game \"Wide\"\nconst WIDE: [i32; {count}] = [{}]\n", elements.join(", "));
        for index in 0..count {
            source.push_str(&format!("const C{index}: i32 = {index}\n"));
        }
        source.push_str("start {}\nupdate(dt: f32) {}\ndraw {}\n");
        let program = analyze_source(&source).expect("semantic checking should pass");
        let Some(ConstValue::Array { length, elements, .. }) = &program.values().constants[0] else {
            panic!("expected array");
        };
        assert_eq!(*length, count);
        let mut found = Vec::new();
        let mut rest: &Values = elements;
        while let Values::Cons(value, tail) = rest {
            match **value {
                ConstValue::I32(number) => found.push(number),
                _ => panic!("expected i32 elements"),
            }
            rest = &**tail;
        }
        assert_eq!(found, (0..count).map(|index| index as i32 * 2).collect::<Vec<_>>());
    }
}
