use speck::checked::analyze;
use speck::emit::{constant_text, emit, emit_completed, emit_for_target, float_literal_text};
use speck::lexer::{lex, TokenKind};
use speck::parser::parse;
use speck::sema::evaluation::{ConstValue, InitialValues, Values};
use speck::{compile_to_llvm, compile_to_llvm_for_target};

/// The `f32` bits of each floating-point literal of a source, by its text.
fn float_bits(source: &str) -> Vec<(String, u32)> {
    match lex(source) {
        Ok(tokens) => tokens
            .iter()
            .filter_map(|token| match &token.kind {
                TokenKind::Float(text) => Some((text.clone(), text.parse::<f32>().unwrap().to_bits())),
                _ => None,
            })
            .collect(),
        Err(_) => Vec::new(),
    }
}

fn compile(source: &str) -> Result<String, Vec<speck::diagnostic::Diagnostic>> {
    compile_to_llvm(source, float_bits(source))
}

#[test]
fn emits_readable_ir_for_control_flow() {
    let source = r#"game "IR"
let frames: i32 = 0
fn add(a: i32, b: i32) -> i32 { return a + b }
start {}
update(dt: f32) {
    frames = add(frames, 1)
    if frames > 2 { frames = 0 }
}
draw {
    debug_frame(frames, 1.0)
    clear_rgb(1, 2, 3)
    fill_rect(10, 20, 30, 40, 50, 60, 70)
}
"#;
    let ir = compile(source).expect("compilation should pass");
    assert!(ir.contains("define i32 @spk_fn_add"));
    assert!(ir.contains("call i32 @spk_fn_add"));
    assert!(ir.contains("icmp sgt i32"));
    assert!(ir.contains("define void @spk_update(float %arg0)"));
    assert!(ir.contains("call void @crumb_clear_rgb(i32 1, i32 2, i32 3)"));
    assert!(ir.contains("call void @crumb_fill_rect(i32 10, i32 20, i32 30, i32 40, i32 50, i32 60, i32 70)"));

    let tokens = lex(source).expect("lexing should pass");
    parse(tokens).expect("parsing should pass");
    assert!(analyze(source, float_bits(source)).is_ok(), "semantic checking should pass");
}

#[test]
fn emits_conversions_short_circuit_void_constants_and_compound_assignment() {
    let source = r#"game "Features"
const TEN: i32 = 10
let integer: i32 = TEN
let decimal: f32 = 1.5
fn effect() -> void { print_i32(TEN) }
fn yes() -> bool { effect() return true }
start {
    decimal += f32(integer)
    integer *= i32(decimal)
    if false && yes() || true { effect() }
}
update(dt: f32) {}
draw {}
"#;
    let ir = compile(source).expect("compilation should pass");
    assert!(!ir.contains("@spk_global_TEN"));
    assert!(ir.contains("define void @spk_fn_effect"));
    assert!(ir.contains("call void @spk_fn_effect"));
    assert!(ir.contains("ret void"));
    assert!(ir.contains("sitofp i32"));
    assert!(ir.contains("fptosi float"));
    assert!(ir.contains("fptosi_nan"));
    assert!(ir.contains("phi i32"));
    assert!(ir.contains("logical_rhs"));
    assert!(ir.contains("phi i1"));
    assert!(ir.contains("fadd float"));
    assert!(ir.contains("mul i32"));
}

#[test]
fn emits_input_abi_calls_and_inlines_predefined_keys() {
    let source = r#"game "Input IR"
let held: bool = false
start {}
update(dt: f32) {
    held = key_down(KEY_LEFT)
    if key_pressed(KEY_SPACE) || key_released(KEY_ENTER) { quit() }
}
draw {}
"#;
    let ir = compile(source).expect("input program should compile");
    assert!(ir.contains("declare i1 @crumb_key_down(i32)"));
    assert!(ir.contains("declare i1 @crumb_key_pressed(i32)"));
    assert!(ir.contains("declare i1 @crumb_key_released(i32)"));
    assert!(ir.contains("declare void @crumb_request_quit()"));
    assert!(ir.contains("call i1 @crumb_key_down(i32 6)"));
    assert!(ir.contains("call i1 @crumb_key_pressed(i32 8)"));
    assert!(ir.contains("call i1 @crumb_key_released(i32 9)"));
    assert!(ir.contains("call void @crumb_request_quit()"));
    assert!(!ir.contains("@spk_global_KEY_"));
}

const SMALL: &str = r#"game "Small"
let speed: f32 = 1.5
start {}
update(dt: f32) {}
draw {}
"#;

#[test]
fn module_starts_with_the_title_file_name_and_triple() {
    let ir = compile_to_llvm_for_target(SMALL, float_bits(SMALL), "x86_64-unknown-linux-gnu").unwrap();
    assert!(ir.starts_with(
        "; Speck game: Small\nsource_filename = \"speck\"\ntarget triple = \"x86_64-unknown-linux-gnu\"\n\ndeclare "
    ));
    let plain = compile(SMALL).unwrap();
    assert!(plain.starts_with("; Speck game: Small\nsource_filename = \"speck\"\n\ndeclare "));
    assert!(plain.ends_with("}\n"));
    assert!(!plain.ends_with("\n\n"));
}

#[test]
fn spells_f32_values_by_the_bits_of_their_f64_widening() {
    let ir = compile(SMALL).unwrap();
    assert!(ir.contains("@spk_global_speed = internal global float 0x3FF8000000000000\n"));
    assert_eq!(constant_text(&ConstValue::F32(1.5f32.to_bits())), "0x3FF8000000000000");
    assert_eq!(constant_text(&ConstValue::F32((-0.1f32).to_bits())), format!("0x{:016X}", (-0.1f32 as f64).to_bits()));
    assert_eq!(constant_text(&ConstValue::F32(1)), format!("0x{:016X}", (f32::from_bits(1) as f64).to_bits()));
    assert_eq!(constant_text(&ConstValue::F32(1)), "0x36A0000000000000");
    assert_eq!(constant_text(&ConstValue::F32(f32::INFINITY.to_bits())), "0x7FF0000000000000");
    assert_eq!(constant_text(&ConstValue::F32(0)), "0x0000000000000000");
}

#[test]
fn spells_literals_without_bits_as_undef() {
    let bits = vec![("1.5".to_string(), 1.5f32.to_bits())];
    assert_eq!(float_literal_text(&bits, "1.5"), "0x3FF8000000000000");
    assert_eq!(float_literal_text(&bits, "2.5"), "undef");
}

#[test]
fn spells_aggregate_constants() {
    let elements = Values::Cons(
        Box::new(ConstValue::I32(-5)),
        Box::new(Values::Cons(Box::new(ConstValue::I32(7)), Box::new(Values::Nil))),
    );
    let array = ConstValue::Array {
        element_type: Box::new(speck::ast::ValueType::I32),
        length: 2,
        elements: Box::new(elements),
    };
    assert_eq!(constant_text(&array), "[i32 -5, i32 7]");
    assert_eq!(constant_text(&ConstValue::Bool(true)), "true");

    let source = r#"game "Tables"
const STEPS: [i32; 3] = [1, 2, 3]
let index: i32 = 1
start {}
update(dt: f32) {
    let step: i32 = STEPS[index]
}
draw {}
"#;
    let ir = compile(source).unwrap();
    assert!(ir.contains("@spk_const_STEPS = internal constant [3 x i32] [i32 1, i32 2, i32 3]\n"));
    assert!(ir.contains("call void @crumb_bounds_fail(i32 "));
    assert!(ir.contains("icmp slt i32 %t"));
}

#[test]
fn takes_values_that_rest_on_f32_arithmetic_from_the_caller() {
    let source = r#"game "Half"
const HALF: f32 = 1.0 / 2.0
start {}
update(dt: f32) {
    let x: f32 = HALF
}
draw {}
"#;
    let program = analyze(source, float_bits(source)).expect("checking should pass");
    let own = emit(&program);
    assert!(own.contains("store float undef, ptr"));
    let supplied = InitialValues { constants: vec![Some(ConstValue::F32(0.5f32.to_bits()))], globals: Vec::new() };
    let ir = emit_completed(&program, &supplied, None);
    assert!(ir.contains("store float 0x3FE0000000000000, ptr"));
    assert_eq!(emit_for_target(&program, None), own);
}

fn is_terminator(line: &str) -> bool {
    line.starts_with("  br ") || line.starts_with("  ret ") || line == "  unreachable"
}

#[test]
fn every_block_label_follows_a_terminator_and_every_body_ends_with_one() {
    let source = r#"game "Blocks"
let table: [i32; 3] = [1, 2, 3]
fn pick(i: i32) -> i32 {
    if i > 2 { return 0 } else { return table[i] }
}
start {}
update(dt: f32) {
    let n: i32 = i32(dt)
    while n > 0 && pick(n) < 3 { n -= 1 }
}
draw {}
"#;
    let ir = compile(source).expect("compilation should pass");
    let lines: Vec<&str> = ir.lines().collect();
    let mut definitions = 0;
    for (index, line) in lines.iter().enumerate() {
        if *line == "}" {
            definitions += 1;
            assert!(is_terminator(lines[index - 1]), "line before `}}`: {}", lines[index - 1]);
        }
        if line.ends_with(':') && !line.starts_with(' ') && *line != "entry:" {
            assert!(is_terminator(lines[index - 1]), "line before {line}: {}", lines[index - 1]);
        }
    }
    assert_eq!(definitions, 4);
    assert!(ir.contains("fptosi_merge"));
    assert!(ir.contains("@crumb_bounds_fail"));
}
