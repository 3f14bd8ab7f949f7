//! Lowering a checked program to textual LLVM IR: the module's declarations, its struct types,
//! its aggregate constants and globals with their initial values, and one function definition
//! for each function, with checked array indexing and saturating `f32` to `i32` conversion.
use vstd::prelude::*;
use vstd::string::StringSliceAdditionalSpecFns;

use crate::ast::{
    ArrayLength, AssignOp, BinaryOp, Constant, Expr, ExprKind, FieldInitializer, Function, FunctionKind, Global,
    Program, ReturnType, Stmt, StmtKind, StructDecl, StructField, UnaryOp, ValueType,
};
use crate::builtins::{builtin_signature, constants, functions, PredefinedConstant, BUILTIN_COUNT};
use crate::checked::{analyze, check_reports, checks_clean, parse_refused, CheckedProgram};
use crate::diagnostic::Diagnostic;
use crate::lexer::lexed;
use crate::sema::findings;
use crate::codegen::{llvm_return_type, llvm_type_text, llvm_value_type};
use crate::resolution::Resolution;
use crate::sema::evaluation::{copy_value, initial_values_of, type_of, value_type, ConstValue, FieldValues, InitialValues, Values};
use crate::sema::inference::{copy_return, find_latest, find_struct};
use crate::sema::typing::latest;
use crate::text::{decimal, owned, push_decimal, push_signed_decimal, push_str, signed_decimal, str_equal};

verus! {

// ---------------------------------------------------------------------------------------------
// Spelling numbers

/// The hexadecimal digit for `d`, upper case.
pub open spec fn upper_hex_digit(d: nat) -> char {
    if d < 10 {
        (48 + d) as char
    } else {
        (55 + d) as char
    }
}

/// The last `n` hexadecimal digits of `v`, most significant first.
pub open spec fn hex_digits(v: nat, n: nat) -> Seq<char>
    decreases n,
{
    if n == 0 {
        seq![]
    } else {
        hex_digits(v / 16, (n - 1) as nat).push(upper_hex_digit(v % 16))
    }
}

/// The bits of the `f64` that an `f32` widens to: the same sign and value, with the exponent
/// rebiased and the fraction moved to the top of the wider field; a subnormal `f32` becomes a
/// normal `f64`.
pub open spec fn widened_bits(b: u32) -> nat {
    let sign: nat = if b >= 0x8000_0000 { 0x8000_0000_0000_0000 } else { 0 };
    let e = (b as nat / 0x80_0000) % 0x100;
    let f = b as nat % 0x80_0000;
    if e == 0xff {
        sign + 0x7ff * 0x10_0000_0000_0000 + f * 0x2000_0000
    } else if e != 0 {
        sign + (e + 896) * 0x10_0000_0000_0000 + f * 0x2000_0000
    } else if f == 0 {
        sign
    } else {
        let s = normalizing_shift(f);
        (sign + (897 - s) * 0x10_0000_0000_0000 + (f * pow2_nat(s) - 0x80_0000) * 0x2000_0000) as nat
    }
}

/// `2^n`.
pub open spec fn pow2_nat(n: nat) -> nat
    decreases n,
{
    if n == 0 {
        1
    } else {
        2 * pow2_nat((n - 1) as nat)
    }
}

/// How many doublings bring a positive subnormal fraction to at least `2^23`.
pub open spec fn normalizing_shift(f: nat) -> nat
    decreases 0x100_0000 - f,
{
    if f == 0 || f >= 0x80_0000 {
        0
    } else {
        1 + normalizing_shift(2 * f)
    }
}

/// How the IR spells an `f32` of bits `b`: the hexadecimal bits of its `f64` widening.
pub open spec fn f32_text(b: u32) -> Seq<char> {
    "0x"@ + hex_digits(widened_bits(b), 16)
}

proof fn lemma_pow2_nat_step(n: nat)
    ensures
        pow2_nat(n + 1) == 2 * pow2_nat(n),
{
}

proof fn lemma_pow2_nat_grows(a: nat, b: nat)
    requires
        a <= b,
    ensures
        pow2_nat(a) <= pow2_nat(b),
    decreases b,
{
    if a < b {
        lemma_pow2_nat_grows(a, (b - 1) as nat);
    }
}

proof fn lemma_pow2_nat_23()
    ensures
        pow2_nat(23) == 0x80_0000,
{
    reveal_with_fuel(pow2_nat, 24);
}

/// Appends the last `n` hexadecimal digits of `v`.
fn push_hex(s: &mut String, v: u64, n: u64)
    ensures
        final(s)@ == old(s)@ + hex_digits(v as nat, n as nat),
    decreases n,
{
    if n == 0 {
        return;
    }
    push_hex(s, v / 16, n - 1);
    let d: u64 = v % 16;
    let c: char = if d < 10 {
        (48u8 + d as u8) as char
    } else {
        (55u8 + d as u8) as char
    };
    s.push(c);
}

/// The bits of the `f64` widening of an `f32`, as `widened_bits` says.
pub fn widen(b: u32) -> (w: u64)
    ensures
        w == widened_bits(b),
{
    let sign: u64 = if b >= 0x8000_0000 { 0x8000_0000_0000_0000 } else { 0 };
    let e: u64 = ((b / 0x80_0000) % 0x100) as u64;
    let f: u64 = (b % 0x80_0000) as u64;
    if e == 0xff {
        return sign + 0x7ff * 0x10_0000_0000_0000 + f * 0x2000_0000;
    }
    if e != 0 {
        return sign + (e + 896) * 0x10_0000_0000_0000 + f * 0x2000_0000;
    }
    if f == 0 {
        return sign;
    }
    let mut m: u64 = f;
    let mut s: u64 = 0;
    assert(pow2_nat(0) == 1);
    while m < 0x80_0000
        invariant
            0 < f < 0x80_0000,
            0 < m < 0x100_0000,
            s <= 23,
            m == f * pow2_nat(s as nat),
            pow2_nat(s as nat) <= m,
            normalizing_shift(f as nat) == s + normalizing_shift(m as nat),
        decreases 0x100_0000 - m,
    {
        proof {
            lemma_pow2_nat_step(s as nat);
            lemma_pow2_nat_23();
            if s >= 23 {
                lemma_pow2_nat_grows(23, s as nat);
            }
            assert(f * pow2_nat((s + 1) as nat) == 2 * (f * pow2_nat(s as nat))) by (nonlinear_arith)
                requires
                    pow2_nat((s + 1) as nat) == 2 * pow2_nat(s as nat),
            ;
        }
        m = m * 2;
        s = s + 1;
    }
    sign + (897 - s) * 0x10_0000_0000_0000 + (m - 0x80_0000) * 0x2000_0000
}

/// Appends how the IR spells an `f32` of bits `b`.
pub fn push_f32(s: &mut String, b: u32)
    ensures
        final(s)@ == old(s)@ + f32_text(b),
{
    push_str(s, "0x");
    push_hex(s, widen(b), 16);
}


/// How the IR spells a floating-point literal of text `text`, given the bit patterns of the
/// literals by their text: the spelling of its bits, or `undef` where none was given.
pub open spec fn float_literal_spelling(float_bits: Seq<(String, u32)>, text: Seq<char>) -> Seq<char> {
    match latest(float_bits, text) {
        Some(b) => f32_text(b),
        None => "undef"@,
    }
}

/// Spells a floating-point literal, as `float_literal_spelling` says.
pub fn float_literal_text(float_bits: &Vec<(String, u32)>, text: &str) -> (spelled: String)
    ensures
        spelled@ == float_literal_spelling(float_bits@, text@),
{
    match find_latest(float_bits, text) {
        Some(i) => {
            let mut spelled = String::new();
            push_f32(&mut spelled, float_bits[i].1);
            assert(spelled@ == "0x"@ + hex_digits(widened_bits(float_bits@[i as int].1), 16));
            spelled
        },
        None => owned("undef"),
    }
}

// ---------------------------------------------------------------------------------------------
// Spelling constant values

/// How the IR spells a boolean.
pub open spec fn bool_spelling(b: bool) -> Seq<char> {
    if b {
        "true"@
    } else {
        "false"@
    }
}

/// How the IR spells a constant value: integers in decimal, `f32`s by their bits, structs as
/// their typed fields in braces and arrays as their typed elements in brackets.
pub open spec fn constant_spelling(v: ConstValue) -> Seq<char>
    decreases v,
{
    match v {
        ConstValue::I32(x) => signed_decimal(x as int),
        ConstValue::F32(b) => f32_text(b),
        ConstValue::Bool(b) => bool_spelling(b),
        ConstValue::Struct { fields, .. } => "{ "@ + field_spellings(*fields) + " }"@,
        ConstValue::Array { element_type, elements, .. } => "["@ + element_spellings(
            llvm_type_text(*element_type),
            *elements,
        ) + "]"@,
    }
}

/// The typed spellings of struct field values, separated by commas.
pub open spec fn field_spellings(fs: FieldValues) -> Seq<char>
    decreases fs,
{
    match fs {
        FieldValues::Nil => seq![],
        FieldValues::Cons(_, v, rest) => {
            let item = llvm_type_text(type_of(*v)) + " "@ + constant_spelling(*v);
            match *rest {
                FieldValues::Nil => item,
                _ => item + ", "@ + field_spellings(*rest),
            }
        },
    }
}

/// The spellings of array elements, each after the element type `ty`, separated by commas.
pub open spec fn element_spellings(ty: Seq<char>, vs: Values) -> Seq<char>
    decreases vs,
{
    match vs {
        Values::Nil => seq![],
        Values::Cons(v, rest) => {
            let item = ty + " "@ + constant_spelling(*v);
            match *rest {
                Values::Nil => item,
                _ => item + ", "@ + element_spellings(ty, *rest),
            }
        },
    }
}

/// Appends the spelling of a constant value.
fn push_constant(s: &mut String, v: &ConstValue)
    ensures
        final(s)@ == old(s)@ + constant_spelling(*v),
    decreases v,
{
    match v {
        ConstValue::I32(x) => push_signed_decimal(s, *x as i64),
        ConstValue::F32(b) => push_f32(s, *b),
        ConstValue::Bool(b) => {
            if *b {
                push_str(s, "true");
            } else {
                push_str(s, "false");
            }
        },
        ConstValue::Struct { fields, .. } => {
            push_str(s, "{ ");
            push_fields(s, &**fields);
            push_str(s, " }");
            assert(s@ =~= old(s)@ + constant_spelling(*v));
        },
        ConstValue::Array { element_type, elements, .. } => {
            let ty = llvm_value_type(&**element_type);
            push_str(s, "[");
            push_elements(s, ty.as_str(), &**elements);
            push_str(s, "]");
            assert(s@ =~= old(s)@ + constant_spelling(*v));
        },
    }
}

fn push_fields(s: &mut String, fs: &FieldValues)
    ensures
        final(s)@ == old(s)@ + field_spellings(*fs),
    decreases fs,
{
    match fs {
        FieldValues::Nil => {},
        FieldValues::Cons(_, v, rest) => {
            let ty = value_type(&**v);
            let ty_text = llvm_value_type(&ty);
            push_str(s, ty_text.as_str());
            push_str(s, " ");
            push_constant(s, &**v);
            match &**rest {
                FieldValues::Nil => {},
                _ => {
                    push_str(s, ", ");
                    push_fields(s, &**rest);
                },
            }
            assert(s@ =~= old(s)@ + field_spellings(*fs));
        },
    }
}

fn push_elements(s: &mut String, ty: &str, vs: &Values)
    ensures
        final(s)@ == old(s)@ + element_spellings(ty@, *vs),
    decreases vs,
{
    match vs {
        Values::Nil => {},
        Values::Cons(v, rest) => {
            push_str(s, ty);
            push_str(s, " ");
            push_constant(s, &**v);
            match &**rest {
                Values::Nil => {},
                _ => {
                    push_str(s, ", ");
                    push_elements(s, ty, &**rest);
                },
            }
            assert(s@ =~= old(s)@ + element_spellings(ty@, *vs));
        },
    }
}

/// The spelling of a constant value, as `constant_spelling` says.
pub fn constant_text(v: &ConstValue) -> (text: String)
    ensures
        text@ == constant_spelling(*v),
{
    let mut text = String::new();
    push_constant(&mut text, v);
    assert(text@ =~= constant_spelling(*v));
    text
}

/// Whether a value is spelled as a module-level constant rather than inline: arrays and structs.
pub open spec fn is_aggregate(v: ConstValue) -> bool {
    v is Struct || v is Array
}

fn aggregate(v: &ConstValue) -> (a: bool)
    ensures
        a == is_aggregate(*v),
{
    match v {
        ConstValue::Struct { .. } => true,
        ConstValue::Array { .. } => true,
        _ => false,
    }
}

// ---------------------------------------------------------------------------------------------
// Text

/// The texts of `parts`, one after the other.
pub open spec fn joined(parts: Seq<&str>) -> Seq<char>
    decreases parts.len(),
{
    if parts.len() == 0 {
        seq![]
    } else {
        joined(parts.drop_last()) + parts.last()@
    }
}

/// The parts, one after the other.
fn concat(parts: &Vec<&str>) -> (text: String)
    ensures
        text@ == joined(parts@),
{
    let mut text = String::new();
    let mut k: usize = 0;
    while k < parts.len()
        invariant
            k <= parts@.len(),
            text@ == joined(parts@.take(k as int)),
        decreases parts.len() - k,
    {
        push_str(&mut text, parts[k]);
        assert(parts@.take(k + 1).drop_last() =~= parts@.take(k as int));
        k += 1;
    }
    assert(parts@.take(k as int) =~= parts@);
    text
}

/// A text on one line: carriage returns and line feeds become spaces.
pub open spec fn one_line(text: Seq<char>) -> Seq<char> {
    text.map_values(|c: char| if c == '\r' || c == '\n' { ' ' } else { c })
}

fn push_one_line(s: &mut String, text: &str)
    ensures
        final(s)@ == old(s)@ + one_line(text@),
{
    let ghost start = s@;
    for c in it: text.chars()
        invariant
            s@ == start + one_line(it.seq().take(it.index() as int)),
    {
        assert(c == it.seq()[it.index() as int]);
        assert(it.seq().take(it.index() + 1) =~= it.seq().take(it.index() as int).push(c));
        if c == '\r' || c == '\n' {
            s.push(' ');
        } else {
            s.push(c);
        }
        assert(s@ =~= start + one_line(it.seq().take(it.index() + 1)));
    }
    assert(s@ =~= start + one_line(text@));
}


// ---------------------------------------------------------------------------------------------
// What a function body sees

/// Where a variable lives: its type and the IR pointer that addresses it.
#[derive(Clone)]
struct Place {
    ty: ValueType,
    pointer: String,
}

/// A lowered expression: its type and how the IR refers to its value.
struct Operand {
    ty: ReturnType,
    repr: String,
}

/// A function a call can reach: what it returns and its IR symbol.
struct Callee {
    ret: ReturnType,
    symbol: String,
}

/// What every function body of a module sees.
struct Module<'a> {
    program: &'a Program,
    values: &'a InitialValues,
    places: Vec<(String, Place)>,
    callees: Vec<(String, Callee)>,
    predefined: Vec<PredefinedConstant>,
}

fn value_operand(ty: ValueType, repr: String) -> (o: Operand)
    ensures
        o.ty == ReturnType::Value(ty),
        o.repr == repr,
{
    Operand { ty: ReturnType::Value(ty), repr }
}

fn undefined() -> (o: Operand)
    ensures
        o.ty is Void,
        o.repr@ == "undef"@,
{
    Operand { ty: ReturnType::Void, repr: owned("undef") }
}

/// The value type of an operand; a checked program uses only operands with one.
fn operand_type(o: &Operand) -> (t: ValueType)
    ensures
        t == operand_type_of(o.ty),
{
    match &o.ty {
        ReturnType::Value(t) => t.clone(),
        ReturnType::Void => ValueType::I32,
    }
}

/// The position of the latest constant named `name`.
fn find_constant(m: &Module, name: &str) -> (found: Option<usize>)
    ensures
        found matches Some(i) ==> i < m.program.constants@.len(),
{
    let mut k: usize = m.program.constants.len();
    while k > 0
        invariant
            k <= m.program.constants@.len(),
        decreases k,
    {
        if str_equal(m.program.constants[k - 1].name.as_str(), name) {
            return Some(k - 1);
        }
        k -= 1;
    }
    None
}

/// The position of the first field named `name`.
fn field_position(fields: &Vec<StructField>, name: &str) -> (found: Option<usize>)
    ensures
        found matches Some(i) ==> i < fields@.len(),
{
    let mut k: usize = 0;
    while k < fields.len()
        invariant
            k <= fields@.len(),
        decreases fields.len() - k,
    {
        if str_equal(fields[k].name.as_str(), name) {
            return Some(k);
        }
        k += 1;
    }
    None
}

/// A named constant as an operand: a program constant by its value, which is spelled inline,
/// or a predefined constant by its number.
fn constant_operand(m: &Module, name: &str) -> (o: Operand)
    ensures
        !is_temp(o.repr@),
{
    proof {
        lemma_spellings_are_not_temps(ConstValue::Bool(true), 0, true, seq![], seq![]);
    }
    match find_constant(m, name) {
        Some(i) => {
            if i < m.values.constants.len() {
                match &m.values.constants[i] {
                    Some(v) => {
                        proof {
                            lemma_spellings_are_not_temps(*v, 0, true, seq![], seq![]);
                        }
                        return value_operand(value_type(v), constant_text(v));
                    },
                    None => {},
                }
            }
            return value_operand(m.program.constants[i].ty.clone(), owned("undef"));
        },
        None => {},
    }
    let mut k: usize = 0;
    while k < m.predefined.len()
        invariant
            k <= m.predefined@.len(),
        decreases m.predefined.len() - k,
    {
        if str_equal(m.predefined[k].name, name) {
            let mut text = String::new();
            push_signed_decimal(&mut text, m.predefined[k].value as i64);
            proof {
                lemma_spellings_are_not_temps(ConstValue::Bool(true), m.predefined@[k as int].value as i64, true, seq![], seq![]);
            }
            return value_operand(ValueType::I32, text);
        }
        k += 1;
    }
    undefined()
}

// ---------------------------------------------------------------------------------------------
// Function bodies

/// The state of lowering one function body.
struct Body {
    scopes: Vec<Vec<(String, Place)>>,
    lines: Vec<String>,
    allocas: Vec<String>,
    next_temp: u64,
    next_label: u64,
    current_block: String,
    terminated: bool,
}

/// The name of temporary number `n`.
pub open spec fn temp_name(n: nat) -> Seq<char> {
    "%t"@ + decimal(n)
}

/// Whether a spelling names a temporary: it starts with `%t`.
pub open spec fn is_temp(s: Seq<char>) -> bool {
    s.len() >= 2 && s[0] == '%' && s[1] == 't'
}

/// Whether `r` names a temporary numbered from `lo` up to, not including, `hi`.
pub open spec fn made_between(r: Seq<char>, lo: int, hi: int) -> bool {
    exists|k: nat| lo <= k < hi && #[trigger] temp_name(k) == r
}

/// Whether `r` can be the value of an expression lowered while the temporaries from `lo` up to
/// `hi` were numbered: one of those temporaries, or a spelling that names no temporary.
pub open spec fn lowered_in(r: Seq<char>, lo: int, hi: int) -> bool {
    made_between(r, lo, hi) || !is_temp(r)
}

/// How the value of `e`, lowered while the temporaries from `lo` up to `hi` were numbered, is
/// spelled: a literal by its own spelling, any other expression as `lowered_in` says.
pub open spec fn spelled_by(e: Expr, r: Seq<char>, lo: int, hi: int, float_bits: Seq<(String, u32)>) -> bool {
    match e.kind {
        ExprKind::I32(x) => r == signed_decimal(x as int),
        ExprKind::F32(text) => r == float_literal_spelling(float_bits, text@),
        ExprKind::Bool(b) => r == bool_spelling(b),
        _ => lowered_in(r, lo, hi),
    }
}

/// Whether `r` is the last temporary numbered before `fin` (with `lo` earlier), while the
/// counter has room.
pub open spec fn last_temp(r: Seq<char>, lo: int, fin: int) -> bool {
    fin < u64::MAX ==> lo < fin && r == temp_name((fin - 1) as nat)
}

proof fn lemma_last_temp_lowered(r: Seq<char>, lo: int, fin: int)
    requires
        0 <= lo,
        last_temp(r, lo, fin),
        fin < u64::MAX,
    ensures
        lowered_in(r, lo, fin),
{
    lemma_fresh_temp((fin - 1) as nat, lo, fin);
}

/// Whether the last of `lines` applies the operator of the binary expression `e` to the left
/// operand's value first and the right operand's value second: the left operand lowered while
/// the temporaries from `lo` up to some `mid` were numbered, the right one while those from
/// `mid` up to the result's own, `fin - 1`, were; the result is `r`.
pub open spec fn operands_in_order(
    e: Expr,
    r: Seq<char>,
    lines: Seq<Seq<char>>,
    lo: int,
    fin: int,
    float_bits: Seq<(String, u32)>,
) -> bool {
    match e.kind {
        ExprKind::Binary { left, op, right } => op == BinaryOp::LogicalAnd || op == BinaryOp::LogicalOr || exists|
            lv: Seq<char>,
            rv: Seq<char>,
            ty: ValueType,
            mid: int,
        |
            #![trigger binary_line(r, op, ty, lv, rv), spelled_by(*left, lv, lo, mid, float_bits)]
            lo <= mid && spelled_by(*left, lv, lo, mid, float_bits) && spelled_by(*right, rv, mid, fin - 1, float_bits)
                && lines.len() > 0 && lines.last() == binary_line(r, op, ty, lv, rv),
        _ => true,
    }
}

/// The text of the instruction that applies the prefix operator `op` to the value `v` of type
/// `ty`: subtraction from zero for a negation, `xor` with `true` for a not; none for another
/// pairing.
pub open spec fn prefix_text(op: UnaryOp, ty: ValueType, v: Seq<char>) -> Option<Seq<char>> {
    match (op, ty) {
        (UnaryOp::Negate, ValueType::I32) => Some(" = sub i32 0, "@ + v),
        (UnaryOp::Negate, ValueType::F32) => Some(" = fsub float 0x0000000000000000, "@ + v),
        (UnaryOp::Not, ValueType::Bool) => Some(" = xor i1 "@ + v + ", true"@),
        _ => None,
    }
}

/// Whether the last of `lines` applies the prefix operator of `e` to its operand's value, that
/// operand lowered while the temporaries from `lo` up to the result's own, `fin - 1`, were
/// numbered; the result is `r`, of type `ty`. The negation of the literal 2147483648 is the
/// literal `-2147483648`, with no instruction.
pub open spec fn prefix_applied(
    e: Expr,
    r: Seq<char>,
    ty: ValueType,
    lines: Seq<Seq<char>>,
    lo: int,
    fin: int,
    float_bits: Seq<(String, u32)>,
) -> bool {
    match e.kind {
        ExprKind::Unary { op, operand } => if op == UnaryOp::Negate && operand.kind == ExprKind::I32(2147483648) {
            r == "-2147483648"@
        } else {
            exists|v: Seq<char>|
                #![trigger spelled_by(*operand, v, lo, fin - 1, float_bits)]
                spelled_by(*operand, v, lo, fin - 1, float_bits) && (prefix_text(op, ty, v) matches Some(text)
                    ==> lines.len() > 0 && lines.last() == "  "@ + r + text)
        },
        _ => true,
    }
}

proof fn lemma_decimal_starts_with_digit(n: nat)
    ensures
        decimal(n).len() > 0,
        '0' <= decimal(n)[0] <= '9',
    decreases n,
{
    if n >= 10 {
        lemma_decimal_starts_with_digit(n / 10);
    }
}

proof fn lemma_temp_is_temp(k: nat)
    ensures
        is_temp(temp_name(k)),
{
    reveal_strlit("%t");
}

/// No literal, constant value or fallback spelling names a temporary.
proof fn lemma_spellings_are_not_temps(v: ConstValue, x: i64, b: bool, bits: Seq<(String, u32)>, text: Seq<char>)
    ensures
        !is_temp(signed_decimal(x as int)),
        !is_temp(bool_spelling(b)),
        !is_temp(float_literal_spelling(bits, text)),
        !is_temp(constant_spelling(v)),
        !is_temp("undef"@),
        !is_temp(""@),
        !is_temp("-2147483648"@),
{
    reveal_strlit("undef");
    reveal_strlit("");
    reveal_strlit("-2147483648");
    reveal_strlit("true");
    reveal_strlit("false");
    reveal_strlit("0x");
    reveal_strlit("{ ");
    reveal_strlit("[");
    lemma_decimal_starts_with_digit((-x) as nat);
    lemma_decimal_starts_with_digit(x as nat);
    assert(!is_temp(signed_decimal(x as int)));
    match v {
        ConstValue::I32(y) => {
            lemma_decimal_starts_with_digit((-y) as nat);
            lemma_decimal_starts_with_digit(y as nat);
        },
        _ => {},
    }
}

proof fn lemma_spelled_is_lowered(e: Expr, r: Seq<char>, lo: int, hi: int, bits: Seq<(String, u32)>)
    requires
        spelled_by(e, r, lo, hi, bits),
    ensures
        lowered_in(r, lo, hi),
{
    match e.kind {
        ExprKind::I32(x) => lemma_spellings_are_not_temps(ConstValue::Bool(true), x, true, bits, seq![]),
        ExprKind::F32(text) => lemma_spellings_are_not_temps(ConstValue::Bool(true), 0, true, bits, text@),
        ExprKind::Bool(b) => lemma_spellings_are_not_temps(ConstValue::Bool(true), 0, b, bits, seq![]),
        _ => {},
    }
}

proof fn lemma_lowered_widens(r: Seq<char>, lo: int, hi: int, lo2: int, hi2: int)
    requires
        lowered_in(r, lo, hi),
        lo2 <= lo,
        hi <= hi2,
    ensures
        lowered_in(r, lo2, hi2),
{
    if made_between(r, lo, hi) {
        let k = choose|k: nat| lo <= k < hi && #[trigger] temp_name(k) == r;
        assert(lo2 <= k < hi2 && temp_name(k) == r);
    }
}

proof fn lemma_fresh_temp(k: nat, lo: int, hi: int)
    requires
        lo <= k < hi,
    ensures
        lowered_in(temp_name(k), lo, hi),
{
    assert(made_between(temp_name(k), lo, hi));
}

/// The name of block label number `n` with `prefix`.
pub open spec fn label_name(prefix: Seq<char>, n: nat) -> Seq<char> {
    prefix + "_"@ + decimal(n)
}

/// The lines of a bounds check of `index` against `length`, with temporaries numbered from `t`
/// and labels from `l`: the check that `0 <= index < length`, a branch to a block that calls
/// the runtime's failure handler and ends there, and the block where lowering goes on.
pub open spec fn bounds_check_lines(index: Seq<char>, length: nat, t: nat, l: nat) -> Seq<Seq<char>> {
    let nonnegative = temp_name(t);
    let below = temp_name(t + 1);
    let valid = temp_name(t + 2);
    let valid_label = label_name("bounds_valid"@, l);
    let failure_label = label_name("bounds_failure"@, l + 1);
    seq![
        "  "@ + nonnegative + " = icmp sge i32 "@ + index + ", 0"@,
        "  "@ + below + " = icmp slt i32 "@ + index + ", "@ + decimal(length),
        "  "@ + valid + " = and i1 "@ + nonnegative + ", "@ + below,
        "  "@ + "br i1 "@ + valid + ", label %"@ + valid_label + ", label %"@ + failure_label,
        failure_label + ":"@,
        "  "@ + "call void @crumb_bounds_fail(i32 "@ + index + ", i32 "@ + decimal(length) + ")"@,
        "  "@ + "unreachable"@,
        valid_label + ":"@,
    ]
}

/// The text of each line.
pub open spec fn line_views(lines: Seq<String>) -> Seq<Seq<char>> {
    lines.map_values(|l: String| l@)
}

/// The line that addresses element `index` of the array of type `array_type` at `base`.
pub open spec fn element_pointer_line(pointer: Seq<char>, array_type: Seq<char>, base: Seq<char>, index: Seq<char>) -> Seq<
    char,
> {
    "  "@ + pointer + " = getelementptr inbounds "@ + array_type + ", ptr "@ + base + ", i32 0, i32 "@ + index
}

/// Whether `lines` end with a bounds check of an index followed by the line that addresses the
/// element at that index as `pointer`.
pub open spec fn ends_with_checked_access(lines: Seq<Seq<char>>, pointer: Seq<char>) -> bool {
    exists|pre: Seq<Seq<char>>, index: Seq<char>, length: nat, t: nat, l: nat, array_type: Seq<char>, base: Seq<char>|
        lines == #[trigger] checked_access(pre, index, length, t, l, array_type, base, pointer)
}

/// `pre`, then a bounds check of `index` against `length`, then the line that addresses the
/// element at `index` as `pointer`.
pub open spec fn checked_access(
    pre: Seq<Seq<char>>,
    index: Seq<char>,
    length: nat,
    t: nat,
    l: nat,
    array_type: Seq<char>,
    base: Seq<char>,
    pointer: Seq<char>,
) -> Seq<Seq<char>> {
    pre + bounds_check_lines(index, length, t, l) + seq![element_pointer_line(pointer, array_type, base, index)]
}

/// The line that loads the value of type `ty` at `pointer` into `temp`.
pub open spec fn load_line(temp: Seq<char>, ty: Seq<char>, pointer: Seq<char>) -> Seq<char> {
    "  "@ + temp + " = load "@ + ty + ", ptr "@ + pointer
}

/// Whether `lines` end with a checked access of an element followed by the load of that
/// element into `temp`.
pub open spec fn ends_with_checked_load(lines: Seq<Seq<char>>, temp: Seq<char>) -> bool {
    exists|pointer: Seq<char>, ty: Seq<char>|
        lines.len() > 0 && ends_with_checked_access(lines.drop_last(), pointer) && lines.last() == #[trigger] load_line(
            temp,
            ty,
            pointer,
        )
}

/// The IR instruction for a binary operator on `f32` values (`is_float`) or on others.
pub open spec fn instruction_name(op: BinaryOp, is_float: bool) -> Seq<char> {
    match op {
        BinaryOp::Add => if is_float { "fadd"@ } else { "add"@ },
        BinaryOp::Subtract => if is_float { "fsub"@ } else { "sub"@ },
        BinaryOp::Multiply => if is_float { "fmul"@ } else { "mul"@ },
        BinaryOp::Divide => if is_float { "fdiv"@ } else { "sdiv"@ },
        BinaryOp::Equal => if is_float { "fcmp oeq"@ } else { "icmp eq"@ },
        BinaryOp::NotEqual => if is_float { "fcmp one"@ } else { "icmp ne"@ },
        BinaryOp::Less => if is_float { "fcmp olt"@ } else { "icmp slt"@ },
        BinaryOp::LessEqual => if is_float { "fcmp ole"@ } else { "icmp sle"@ },
        BinaryOp::Greater => if is_float { "fcmp ogt"@ } else { "icmp sgt"@ },
        BinaryOp::GreaterEqual => if is_float { "fcmp oge"@ } else { "icmp sge"@ },
        BinaryOp::LogicalAnd => "and"@,
        BinaryOp::LogicalOr => "or"@,
    }
}

/// The value type an operand of type `t` is lowered as.
pub open spec fn operand_type_of(t: ReturnType) -> ValueType {
    match t {
        ReturnType::Value(v) => v,
        ReturnType::Void => ValueType::I32,
    }
}

/// The line that applies `op` to `left` and `right` of type `ty`, into `temp`.
pub open spec fn binary_line(temp: Seq<char>, op: BinaryOp, ty: ValueType, left: Seq<char>, right: Seq<char>) -> Seq<char> {
    "  "@ + temp + " = "@ + instruction_name(op, ty == ValueType::F32) + " "@ + llvm_type_text(ty) + " "@ + left
        + ", "@ + right
}

/// The lines that compute `compare`, branch on its result `flag` to block `taken` or `next`,
/// and make `taken` go straight to `merge`.
pub open spec fn branch_lines(compare: Seq<char>, flag: Seq<char>, taken: Seq<char>, next: Seq<char>, merge: Seq<char>) -> Seq<
    Seq<char>,
> {
    seq![
        "  "@ + compare,
        "  "@ + "br i1 "@ + flag + ", label %"@ + taken + ", label %"@ + next,
        taken + ":"@,
        "  "@ + "br label %"@ + merge,
    ]
}

/// The lines that convert the `f32` `v` to an `i32`, with temporaries numbered from `t` and
/// labels from `l`: NaN gives 0, values at or above 2^31 give `i32::MAX`, values at or below
/// -2^31 give `i32::MIN`, and any other value is truncated toward zero; the result is
/// temporary `t + 4`.
pub open spec fn float_to_int_lines(v: Seq<char>, t: nat, l: nat) -> Seq<Seq<char>> {
    let nan = label_name("fptosi_nan"@, l);
    let high_check = label_name("fptosi_high_check"@, l + 1);
    let high = label_name("fptosi_high"@, l + 2);
    let low_check = label_name("fptosi_low_check"@, l + 3);
    let low = label_name("fptosi_low"@, l + 4);
    let convert = label_name("fptosi_convert"@, l + 5);
    let merge = label_name("fptosi_merge"@, l + 6);
    branch_lines(temp_name(t) + " = fcmp uno float "@ + v + ", "@ + v, temp_name(t), nan, high_check, merge) + seq![
        high_check + ":"@,
    ] + branch_lines(
        temp_name(t + 1) + " = fcmp oge float "@ + v + ", 0x41E0000000000000"@,
        temp_name(t + 1),
        high,
        low_check,
        merge,
    ) + seq![low_check + ":"@] + branch_lines(
        temp_name(t + 2) + " = fcmp ole float "@ + v + ", 0xC1E0000000000000"@,
        temp_name(t + 2),
        low,
        convert,
        merge,
    ) + seq![
        convert + ":"@,
        "  "@ + temp_name(t + 3) + " = fptosi float "@ + v + " to i32"@,
        "  "@ + "br label %"@ + merge,
        merge + ":"@,
        "  "@ + temp_name(t + 4) + " = phi i32 [0, %"@ + nan + "], [2147483647, %"@ + high + "], [-2147483648, %"@
            + low + "], ["@ + temp_name(t + 3) + ", %"@ + convert + "]"@,
    ]
}

/// Whether an instruction's text ends a block: a branch, a return or `unreachable`.
pub open spec fn is_terminator_text(t: Seq<char>) -> bool {
    t.len() >= 2 && ((t[0] == 'b' && t[1] == 'r') || (t[0] == 'r' && t[1] == 'e') || (t[0] == 'u' && t[1] == 'n'))
}

/// Whether a line is indented, as instructions are; a block's label is not.
pub open spec fn indented(l: Seq<char>) -> bool {
    l.len() >= 2 && l[0] == ' ' && l[1] == ' '
}

/// Whether each block's label comes right after an instruction that ends the block before.
pub open spec fn blocks_follow(lines: Seq<Seq<char>>) -> bool {
    forall|i: int|
        0 <= i < lines.len() && !indented(#[trigger] lines[i]) ==> i > 0 && is_terminator_line(lines[i - 1])
}

/// Whether a line of a body is an instruction that ends a block.
pub open spec fn is_terminator_line(l: Seq<char>) -> bool {
    l.len() >= 2 && l[0] == ' ' && l[1] == ' ' && is_terminator_text(l.subrange(2, l.len() as int))
}

impl Body {
    /// Whether the body's lines so far have each block's label right after an instruction
    /// that ends the block before.
    spec fn well_blocked(self) -> bool {
        blocks_follow(line_views(self.lines@))
    }

    /// Whether the body, once its current block has ended, ends with the line that ended it.
    spec fn ends_blocks(self) -> bool {
        self.terminated ==> self.lines@.len() > 0 && is_terminator_line(self.lines@.last()@)
    }

    /// A fresh temporary: `%t` and a number.
    fn temp(&mut self) -> (name: String)
        ensures
            name@ == temp_name(old(self).next_temp as nat),
            final(self).next_temp == if old(self).next_temp < u64::MAX {
                (old(self).next_temp + 1) as u64
            } else {
                old(self).next_temp
            },
            final(self).lines == old(self).lines,
            final(self).next_label == old(self).next_label,
            final(self).terminated == old(self).terminated,
    {
        let mut name = owned("%t");
        push_decimal(&mut name, self.next_temp);
        if self.next_temp < u64::MAX {
            self.next_temp = self.next_temp + 1;
        }
        name
    }

    /// A fresh block label: `prefix`, an underscore and a number.
    fn label(&mut self, prefix: &str) -> (name: String)
        ensures
            name@ == label_name(prefix@, old(self).next_label as nat),
            final(self).next_label == if old(self).next_label < u64::MAX {
                (old(self).next_label + 1) as u64
            } else {
                old(self).next_label
            },
            final(self).lines == old(self).lines,
            final(self).next_temp == old(self).next_temp,
            final(self).terminated == old(self).terminated,
    {
        let mut name = owned(prefix);
        push_str(&mut name, "_");
        push_decimal(&mut name, self.next_label);
        if self.next_label < u64::MAX {
            self.next_label = self.next_label + 1;
        }
        name
    }

    fn instruction(&mut self, text: String)
        requires
            old(self).well_blocked(),
            !old(self).terminated,
        ensures
            final(self).well_blocked(),
            line_views(final(self).lines@) == line_views(old(self).lines@).push("  "@ + text@),
            final(self).next_temp == old(self).next_temp,
            final(self).next_label == old(self).next_label,
            final(self).terminated == old(self).terminated,
    {
        let mut line = owned("  ");
        push_str(&mut line, text.as_str());
        self.lines.push(line);
        assert(line_views(self.lines@) =~= line_views(old(self).lines@).push("  "@ + text@));
        proof {
            reveal_strlit("  ");
            let before = line_views(old(self).lines@);
            let after = line_views(self.lines@);
            assert(indented(after[before.len() as int]));
            assert forall|i: int| 0 <= i < after.len() && !indented(#[trigger] after[i]) implies i > 0
                && is_terminator_line(after[i - 1]) by {
                assert(i < before.len());
                assert(after[i] == before[i]);
                assert(!indented(before[i]));
                assert(after[i - 1] == before[i - 1]);
            }
        }
    }

    fn terminate(&mut self, text: String)
        requires
            old(self).well_blocked(),
            !old(self).terminated,
            is_terminator_text(text@),
        ensures
            final(self).well_blocked(),
            line_views(final(self).lines@) == line_views(old(self).lines@).push("  "@ + text@),
            final(self).next_temp == old(self).next_temp,
            final(self).next_label == old(self).next_label,
            final(self).terminated,
            final(self).ends_blocks(),
    {
        let ghost t = text@;
        self.instruction(text);
        self.terminated = true;
        proof {
            reveal_strlit("  ");
            let line = "  "@ + t;
            assert(line_views(self.lines@).last() == line);
            assert(self.lines@.last()@ == line);
            assert(line.subrange(2, line.len() as int) =~= t);
        }
    }

    /// Ends the block with a jump to `target`.
    fn jump(&mut self, target: &String)
        requires
            old(self).well_blocked(),
            !old(self).terminated,
        ensures
            final(self).well_blocked(),
            line_views(final(self).lines@) == line_views(old(self).lines@).push("  "@ + "br label %"@ + target@),
            final(self).next_temp == old(self).next_temp,
            final(self).next_label == old(self).next_label,
            final(self).terminated,
            final(self).ends_blocks(),
    {
        let text = concat(&vec!["br label %", target.as_str()]);
        assert(text@ == "br label %"@ + target@) by {
            reveal_with_fuel(joined, 3);
        }
        proof {
            reveal_strlit("br label %");
        }
        let ghost t = text@;
        self.terminate(text);
        assert("  "@ + t =~= "  "@ + "br label %"@ + target@);
    }

    /// Ends the block with a branch on `condition` to `yes` or `no`.
    fn jump_if(&mut self, condition: &str, yes: &String, no: &String)
        requires
            old(self).well_blocked(),
            !old(self).terminated,
        ensures
            final(self).well_blocked(),
            line_views(final(self).lines@) == line_views(old(self).lines@).push(
                "  "@ + "br i1 "@ + condition@ + ", label %"@ + yes@ + ", label %"@ + no@,
            ),
            final(self).next_temp == old(self).next_temp,
            final(self).next_label == old(self).next_label,
            final(self).terminated,
            final(self).ends_blocks(),
    {
        let text = concat(&vec!["br i1 ", condition, ", label %", yes.as_str(), ", label %", no.as_str()]);
        assert(text@ == "br i1 "@ + condition@ + ", label %"@ + yes@ + ", label %"@ + no@) by {
            reveal_with_fuel(joined, 7);
        }
        proof {
            reveal_strlit("br i1 ");
        }
        let ghost t = text@;
        self.terminate(text);
        assert("  "@ + t =~= "  "@ + "br i1 "@ + condition@ + ", label %"@ + yes@ + ", label %"@ + no@);
    }

    /// Ends the block as one that is never reached.
    fn unreachable(&mut self)
        requires
            old(self).well_blocked(),
            !old(self).terminated,
        ensures
            final(self).well_blocked(),
            line_views(final(self).lines@) == line_views(old(self).lines@).push("  "@ + "unreachable"@),
            final(self).next_temp == old(self).next_temp,
            final(self).next_label == old(self).next_label,
            final(self).terminated,
            final(self).ends_blocks(),
    {
        proof {
            reveal_strlit("unreachable");
        }
        self.terminate(owned("unreachable"));
    }

    /// Ends the block by returning, with `value` (`void` or a type and a value).
    fn ret(&mut self, value: &str)
        requires
            old(self).well_blocked(),
            !old(self).terminated,
        ensures
            final(self).well_blocked(),
            final(self).next_temp == old(self).next_temp,
            final(self).terminated,
            final(self).ends_blocks(),
    {
        let text = concat(&vec!["ret ", value]);
        assert(text@ == "ret "@ + value@) by {
            reveal_with_fuel(joined, 3);
        }
        proof {
            reveal_strlit("ret ");
        }
        self.terminate(text);
    }

    fn place_label(&mut self, label: &String)
        requires
            old(self).well_blocked(),
            old(self).terminated,
            old(self).ends_blocks(),
        ensures
            final(self).well_blocked(),
            line_views(final(self).lines@) == line_views(old(self).lines@).push(label@ + ":"@),
            final(self).next_temp == old(self).next_temp,
            final(self).next_label == old(self).next_label,
            !final(self).terminated,
    {
        let mut line = label.clone();
        push_str(&mut line, ":");
        self.lines.push(line);
        self.current_block = label.clone();
        self.terminated = false;
        assert(line_views(self.lines@) =~= line_views(old(self).lines@).push(label@ + ":"@));
        proof {
            let before = line_views(old(self).lines@);
            let after = line_views(self.lines@);
            assert forall|i: int| 0 <= i < after.len() && !indented(#[trigger] after[i]) implies i > 0
                && is_terminator_line(after[i - 1]) by {
                if i < before.len() {
                    assert(after[i] == before[i]);
                    assert(!indented(before[i]));
                    assert(after[i - 1] == before[i - 1]);
                } else {
                    assert(after[i - 1] == before.last());
                }
            }
        }
    }

    /// Storage of type `ty` at the start of the entry block.
    fn entry_alloca(&mut self, ty: &String) -> (pointer: String)
        ensures
            final(self).lines == old(self).lines,
            old(self).next_temp <= final(self).next_temp,
            final(self).terminated == old(self).terminated,
    {
        let pointer = self.temp();
        let line = concat(&vec!["  ", pointer.as_str(), " = alloca ", ty.as_str()]);
        self.allocas.push(line);
        pointer
    }

    fn bind(&mut self, name: &String, place: Place)
        ensures
            final(self).lines == old(self).lines,
            final(self).next_temp == old(self).next_temp,
            final(self).terminated == old(self).terminated,
    {
        match self.scopes.pop() {
            Some(mut innermost) => {
                innermost.push((name.clone(), place));
                self.scopes.push(innermost);
            },
            None => {
                let mut innermost: Vec<(String, Place)> = Vec::new();
                innermost.push((name.clone(), place));
                self.scopes.push(innermost);
            },
        }
    }

    /// The innermost local named `name`, else the global or module constant of that name.
    fn lookup(&self, m: &Module, name: &str) -> Option<Place> {
        let mut k: usize = self.scopes.len();
        while k > 0
            invariant
                k <= self.scopes@.len(),
            decreases k,
        {
            match find_latest(&self.scopes[k - 1], name) {
                Some(i) => {
                    return Some(self.scopes[k - 1][i].1.clone());
                },
                None => {},
            }
            k -= 1;
        }
        match find_latest(&m.places, name) {
            Some(i) => Some(m.places[i].1.clone()),
            None => None,
        }
    }

    fn load(&mut self, place: Place) -> (value: Operand)
        requires
            old(self).well_blocked(),
            !old(self).terminated,
        ensures
            final(self).well_blocked(),
            line_views(final(self).lines@) == line_views(old(self).lines@).push(
                load_line(value.repr@, llvm_type_text(place.ty), place.pointer@),
            ),
            value.ty is Value,
            final(self).next_temp >= old(self).next_temp,
            final(self).next_label == old(self).next_label,
            !final(self).terminated,
            last_temp(value.repr@, old(self).next_temp as int, final(self).next_temp as int),
    {
        let temp = self.temp();
        let ty = llvm_value_type(&place.ty);
        let line = concat(&vec![temp.as_str(), " = load ", ty.as_str(), ", ptr ", place.pointer.as_str()]);
        assert(line@ == temp@ + " = load "@ + ty@ + ", ptr "@ + place.pointer@) by {
            reveal_with_fuel(joined, 6);
        }
        self.instruction(line);
        assert("  "@ + line@ =~= load_line(temp@, llvm_type_text(place.ty), place.pointer@));
        value_operand(place.ty, temp)
    }

    /// Branches to a failure block unless `0 <= index < length`: the lines
    /// `bounds_check_lines` gives, while the counters have room.
    #[verifier::rlimit(50)]
    #[verifier::spinoff_prover]
    fn bounds_check(&mut self, index: &String, length: usize)
        requires
            old(self).well_blocked(),
            !old(self).terminated,
        ensures
            final(self).well_blocked(),
            old(self).next_temp + 3 <= u64::MAX && old(self).next_label + 2 <= u64::MAX ==> line_views(
                final(self).lines@,
            ) == line_views(old(self).lines@) + bounds_check_lines(
                index@,
                length as nat,
                old(self).next_temp as nat,
                old(self).next_label as nat,
            ),
            old(self).next_temp + 3 <= u64::MAX ==> final(self).next_temp == old(self).next_temp + 3,
            old(self).next_label + 2 <= u64::MAX ==> final(self).next_label == old(self).next_label + 2,
            old(self).next_temp + 3 > u64::MAX ==> final(self).next_temp == u64::MAX,
            old(self).next_label + 2 > u64::MAX ==> final(self).next_label == u64::MAX,
            !final(self).terminated,
    {
        let ghost lines0 = line_views(self.lines@);
        let ghost t = self.next_temp as nat;
        let ghost l = self.next_label as nat;
        let mut bound = String::new();
        push_decimal(&mut bound, length as u64);
        let nonnegative = self.temp();
        let first = concat(&vec![nonnegative.as_str(), " = icmp sge i32 ", index.as_str(), ", 0"]);
        assert(first@ == nonnegative@ + " = icmp sge i32 "@ + index@ + ", 0"@) by {
            reveal_with_fuel(joined, 5);
        }
        self.instruction(first);
        let below = self.temp();
        let second = concat(&vec![below.as_str(), " = icmp slt i32 ", index.as_str(), ", ", bound.as_str()]);
        assert(second@ == below@ + " = icmp slt i32 "@ + index@ + ", "@ + bound@) by {
            reveal_with_fuel(joined, 6);
        }
        self.instruction(second);
        let valid = self.temp();
        let third = concat(&vec![valid.as_str(), " = and i1 ", nonnegative.as_str(), ", ", below.as_str()]);
        assert(third@ == valid@ + " = and i1 "@ + nonnegative@ + ", "@ + below@) by {
            reveal_with_fuel(joined, 6);
        }
        self.instruction(third);
        let valid_label = self.label("bounds_valid");
        let failure_label = self.label("bounds_failure");
        let ghost before_branch = line_views(self.lines@);
        self.jump_if(valid.as_str(), &valid_label, &failure_label);
        self.place_label(&failure_label);
        let call = concat(&vec!["call void @crumb_bounds_fail(i32 ", index.as_str(), ", i32 ", bound.as_str(), ")"]);
        assert(call@ == "call void @crumb_bounds_fail(i32 "@ + index@ + ", i32 "@ + bound@ + ")"@) by {
            reveal_with_fuel(joined, 6);
        }
        self.instruction(call);
        self.unreachable();
        self.place_label(&valid_label);
        proof {
            if t + 3 <= u64::MAX && l + 2 <= u64::MAX {
                assert(nonnegative@ == temp_name(t));
                assert(below@ == temp_name(t + 1));
                assert(valid@ == temp_name(t + 2));
                assert(valid_label@ == label_name("bounds_valid"@, l));
                assert(failure_label@ == label_name("bounds_failure"@, l + 1));
                assert(bound@ == decimal(length as nat));
                let expected = bounds_check_lines(index@, length as nat, t, l);
                assert("  "@ + first@ =~= expected[0]);
                assert("  "@ + second@ =~= expected[1]);
                assert("  "@ + third@ =~= expected[2]);
                assert("  "@ + call@ =~= expected[5]);
                assert(line_views(self.lines@) =~= lines0.push(expected[0]).push(expected[1]).push(expected[2]).push(
                    expected[3],
                ).push(expected[4]).push(expected[5]).push(expected[6]).push(expected[7]));
                assert(line_views(self.lines@) =~= lines0 + expected);
            }
        }
    }

    /// Applies an arithmetic or comparison operator to two values of the left one's type.
    #[verifier::rlimit(50)]
    #[verifier::spinoff_prover]
    fn binary(&mut self, left: Operand, op: BinaryOp, right: Operand) -> (value: Operand)
        requires
            old(self).well_blocked(),
            !old(self).terminated,
        ensures
            final(self).well_blocked(),
            !final(self).terminated,
            value.repr@ == temp_name(old(self).next_temp as nat),
            final(self).next_temp == if old(self).next_temp < u64::MAX {
                (old(self).next_temp + 1) as u64
            } else {
                old(self).next_temp
            },
            last_temp(value.repr@, old(self).next_temp as int, final(self).next_temp as int),
            line_views(final(self).lines@) == line_views(old(self).lines@).push(
                binary_line(value.repr@, op, operand_type_of(left.ty), left.repr@, right.repr@),
            ),
    {
        let temp = self.temp();
        let left_type = operand_type(&left);
        let is_float = match left_type {
            ValueType::F32 => true,
            _ => false,
        };
        let name: &str = match op {
            BinaryOp::Add => if is_float { "fadd" } else { "add" },
            BinaryOp::Subtract => if is_float { "fsub" } else { "sub" },
            BinaryOp::Multiply => if is_float { "fmul" } else { "mul" },
            BinaryOp::Divide => if is_float { "fdiv" } else { "sdiv" },
            BinaryOp::Equal => if is_float { "fcmp oeq" } else { "icmp eq" },
            BinaryOp::NotEqual => if is_float { "fcmp one" } else { "icmp ne" },
            BinaryOp::Less => if is_float { "fcmp olt" } else { "icmp slt" },
            BinaryOp::LessEqual => if is_float { "fcmp ole" } else { "icmp sle" },
            BinaryOp::Greater => if is_float { "fcmp ogt" } else { "icmp sgt" },
            BinaryOp::GreaterEqual => if is_float { "fcmp oge" } else { "icmp sge" },
            BinaryOp::LogicalAnd => "and",
            BinaryOp::LogicalOr => "or",
        };
        assert(name@ == instruction_name(op, is_float)) by {
            reveal_strlit("fadd");
            reveal_strlit("add");
            reveal_strlit("fsub");
            reveal_strlit("sub");
            reveal_strlit("fmul");
            reveal_strlit("mul");
            reveal_strlit("fdiv");
            reveal_strlit("sdiv");
        }
        let result_type = match op {
            BinaryOp::Add | BinaryOp::Subtract | BinaryOp::Multiply | BinaryOp::Divide => left_type.clone(),
            _ => ValueType::Bool,
        };
        let ty = llvm_value_type(&left_type);
        let line = concat(&vec![temp.as_str(), " = ", name, " ", ty.as_str(), " ", left.repr.as_str(), ", ", right.repr.as_str()]);
        assert(line@ == temp@ + " = "@ + name@ + " "@ + ty@ + " "@ + left.repr@ + ", "@ + right.repr@) by {
            reveal_with_fuel(joined, 10);
        }
        self.instruction(line);
        assert("  "@ + line@ =~= binary_line(temp@, op, left_type, left.repr@, right.repr@));
        value_operand(result_type, temp)
    }

    /// The lines `branch_lines` gives.
    fn branch(&mut self, compare: String, flag: &String, taken: &String, next: &String, merge: &String)
        requires
            old(self).well_blocked(),
            !old(self).terminated,
        ensures
            final(self).well_blocked(),
            final(self).terminated,
            final(self).ends_blocks(),
            line_views(final(self).lines@) == line_views(old(self).lines@) + branch_lines(
                compare@,
                flag@,
                taken@,
                next@,
                merge@,
            ),
            final(self).next_temp == old(self).next_temp,
            final(self).next_label == old(self).next_label,
    {
        let ghost lines0 = line_views(self.lines@);
        let ghost c = compare@;
        self.instruction(compare);
        self.jump_if(flag.as_str(), taken, next);
        self.place_label(taken);
        self.jump(merge);
        let ghost expected = branch_lines(c, flag@, taken@, next@, merge@);
        assert(line_views(self.lines@) =~= lines0 + expected);
    }

    /// Converts an `f32` to an `i32`, saturating at the bounds and taking NaN to zero: the lines
    /// `float_to_int_lines` gives, while the counters have room.
    #[verifier::rlimit(100)]
    #[verifier::spinoff_prover]
    fn float_to_int(&mut self, source: Operand) -> (value: Operand)
        requires
            old(self).well_blocked(),
            !old(self).terminated,
        ensures
            final(self).well_blocked(),
            !final(self).terminated,
            old(self).next_temp <= final(self).next_temp,
            last_temp(value.repr@, old(self).next_temp as int, final(self).next_temp as int),
            old(self).next_temp + 4 <= u64::MAX && old(self).next_label + 7 <= u64::MAX ==> line_views(
                final(self).lines@,
            ) == line_views(old(self).lines@) + float_to_int_lines(
                source.repr@,
                old(self).next_temp as nat,
                old(self).next_label as nat,
            ) && value.repr@ == temp_name((old(self).next_temp + 4) as nat),
    {
        let ghost lines0 = line_views(self.lines@);
        let ghost t = self.next_temp as nat;
        let ghost l = self.next_label as nat;
        let nan_label = self.label("fptosi_nan");
        let high_check_label = self.label("fptosi_high_check");
        let high_label = self.label("fptosi_high");
        let low_check_label = self.label("fptosi_low_check");
        let low_label = self.label("fptosi_low");
        let convert_label = self.label("fptosi_convert");
        let merge_label = self.label("fptosi_merge");
        let v = source.repr.as_str();

        let is_nan = self.temp();
        let nan_test = concat(&vec![is_nan.as_str(), " = fcmp uno float ", v, ", ", v]);
        assert(nan_test@ == is_nan@ + " = fcmp uno float "@ + v@ + ", "@ + v@) by {
            reveal_with_fuel(joined, 6);
        }
        self.branch(nan_test, &is_nan, &nan_label, &high_check_label, &merge_label);
        let ghost after_nan = line_views(self.lines@);
        self.place_label(&high_check_label);

        let is_high = self.temp();
        let high_test = concat(&vec![is_high.as_str(), " = fcmp oge float ", v, ", 0x41E0000000000000"]);
        assert(high_test@ == is_high@ + " = fcmp oge float "@ + v@ + ", 0x41E0000000000000"@) by {
            reveal_with_fuel(joined, 5);
        }
        self.branch(high_test, &is_high, &high_label, &low_check_label, &merge_label);
        let ghost after_high = line_views(self.lines@);
        self.place_label(&low_check_label);

        let is_low = self.temp();
        let low_test = concat(&vec![is_low.as_str(), " = fcmp ole float ", v, ", 0xC1E0000000000000"]);
        assert(low_test@ == is_low@ + " = fcmp ole float "@ + v@ + ", 0xC1E0000000000000"@) by {
            reveal_with_fuel(joined, 5);
        }
        self.branch(low_test, &is_low, &low_label, &convert_label, &merge_label);
        let ghost after_low = line_views(self.lines@);
        self.place_label(&convert_label);

        let converted = self.temp();
        let convert = concat(&vec![converted.as_str(), " = fptosi float ", v, " to i32"]);
        assert(convert@ == converted@ + " = fptosi float "@ + v@ + " to i32"@) by {
            reveal_with_fuel(joined, 5);
        }
        self.instruction(convert);
        self.jump(&merge_label);
        self.place_label(&merge_label);
        let result = self.temp();
        let phi = concat(
            &vec![
                result.as_str(),
                " = phi i32 [0, %",
                nan_label.as_str(),
                "], [2147483647, %",
                high_label.as_str(),
                "], [-2147483648, %",
                low_label.as_str(),
                "], [",
                converted.as_str(),
                ", %",
                convert_label.as_str(),
                "]",
            ],
        );
        assert(phi@ == result@ + " = phi i32 [0, %"@ + nan_label@ + "], [2147483647, %"@ + high_label@
            + "], [-2147483648, %"@ + low_label@ + "], ["@ + converted@ + ", %"@ + convert_label@ + "]"@) by {
            reveal_with_fuel(joined, 13);
        }
        self.instruction(phi);
        proof {
            if t + 4 <= u64::MAX && l + 7 <= u64::MAX {
                let tail = seq![
                    convert_label@ + ":"@,
                    "  "@ + convert@,
                    "  "@ + "br label %"@ + merge_label@,
                    merge_label@ + ":"@,
                    "  "@ + phi@,
                ];
                assert(line_views(self.lines@) =~= after_low + tail);
                let expected = float_to_int_lines(source.repr@, t, l);
                assert(is_nan@ == temp_name(t));
                assert(is_high@ == temp_name(t + 1));
                assert(is_low@ == temp_name(t + 2));
                assert(converted@ == temp_name(t + 3));
                assert(result@ == temp_name(t + 4));
                assert(nan_label@ == label_name("fptosi_nan"@, l));
                assert(high_check_label@ == label_name("fptosi_high_check"@, l + 1));
                assert(high_label@ == label_name("fptosi_high"@, l + 2));
                assert(low_check_label@ == label_name("fptosi_low_check"@, l + 3));
                assert(low_label@ == label_name("fptosi_low"@, l + 4));
                assert(convert_label@ == label_name("fptosi_convert"@, l + 5));
                assert(merge_label@ == label_name("fptosi_merge"@, l + 6));
                assert("  "@ + convert@ =~= "  "@ + temp_name(t + 3) + " = fptosi float "@ + source.repr@ + " to i32"@);
                assert("  "@ + phi@ =~= "  "@ + temp_name(t + 4) + " = phi i32 [0, %"@ + nan_label@ + "], [2147483647, %"@
                    + high_label@ + "], [-2147483648, %"@ + low_label@ + "], ["@ + temp_name(t + 3) + ", %"@ + convert_label@
                    + "]"@);
                assert(nan_test@ =~= temp_name(t) + " = fcmp uno float "@ + source.repr@ + ", "@ + source.repr@);
                assert(high_test@ =~= temp_name(t + 1) + " = fcmp oge float "@ + source.repr@ + ", 0x41E0000000000000"@);
                assert(low_test@ =~= temp_name(t + 2) + " = fcmp ole float "@ + source.repr@ + ", 0xC1E0000000000000"@);
                assert(expected =~= branch_lines(nan_test@, is_nan@, nan_label@, high_check_label@, merge_label@) + seq![
                    high_check_label@ + ":"@,
                ] + branch_lines(high_test@, is_high@, high_label@, low_check_label@, merge_label@) + seq![
                    low_check_label@ + ":"@,
                ] + branch_lines(low_test@, is_low@, low_label@, convert_label@, merge_label@) + tail);
                assert(line_views(self.lines@) =~= lines0 + expected);
            }
        }
        value_operand(ValueType::I32, result)
    }
}

// ---------------------------------------------------------------------------------------------
// Expressions

impl Body {
    /// Lowers an expression, giving its value.
    fn expression(&mut self, m: &Module, e: &Expr) -> (value: Operand)
        requires
            old(self).well_blocked(),
            !old(self).terminated,
        ensures
            final(self).well_blocked(),
            !final(self).terminated,
            old(self).next_temp <= final(self).next_temp,
            final(self).next_temp < u64::MAX ==> spelled_by(
                *e,
                value.repr@,
                old(self).next_temp as int,
                final(self).next_temp as int,
                m.program.float_bits@,
            ),
            e.kind matches ExprKind::I32(x) ==> value.repr@ == signed_decimal(x as int) && final(self).lines
                == old(self).lines,
            e.kind matches ExprKind::F32(text) ==> value.repr@ == float_literal_spelling(m.program.float_bits@, text@)
                && final(self).lines == old(self).lines,
            e.kind matches ExprKind::Bool(b) ==> value.repr@ == bool_spelling(b) && final(self).lines == old(self).lines,
            e.kind is Index && value.ty is Value && final(self).next_temp < u64::MAX && final(self).next_label
                < u64::MAX ==> ends_with_checked_load(line_views(final(self).lines@), value.repr@),
            e.kind is Binary && final(self).next_temp < u64::MAX ==> operands_in_order(
                *e,
                value.repr@,
                line_views(final(self).lines@),
                old(self).next_temp as int,
                final(self).next_temp as int,
                m.program.float_bits@,
            ),
        decreases e, 2int,
    {
        let ghost lo = self.next_temp;
        let value = match &e.kind {
            ExprKind::I32(x) => {
                let mut text = String::new();
                push_signed_decimal(&mut text, *x);
                value_operand(ValueType::I32, text)
            },
            ExprKind::F32(text) => value_operand(
                ValueType::F32,
                float_literal_text(&m.program.float_bits, text.as_str()),
            ),
            ExprKind::Bool(b) => value_operand(ValueType::Bool, if *b { owned("true") } else { owned("false") }),
            ExprKind::ArrayLiteral(_) => undefined(),
            ExprKind::StructLiteral { name, fields } => self.struct_literal(m, name, fields),
            ExprKind::Variable(name) => match self.lookup(m, name.as_str()) {
                Some(place) => self.load(place),
                None => constant_operand(m, name.as_str()),
            },
            ExprKind::Index { .. } => self.index_value(m, e),
            ExprKind::Field { .. } => self.field_value(m, e),
            ExprKind::Unary { .. } => self.unary_value(m, e),
            ExprKind::Binary { .. } => self.operator_value(m, e),
            ExprKind::Call { .. } => self.call_value(m, e),
            ExprKind::Conversion { .. } => self.conversion_value(m, e),
        };
        proof {
            if self.next_temp < u64::MAX {
                lemma_spellings_are_not_temps(ConstValue::Bool(true), 0, true, m.program.float_bits@, seq![]);
                if e.kind is Variable && is_temp(value.repr@) {
                    lemma_last_temp_lowered(value.repr@, lo as int, self.next_temp as int);
                }
            }
        }
        value
    }

    /// Lowers an element read `base[index]`: through the storage the base names, or through a
    /// copy of the base's value; either way after a bounds check.
    fn index_value(&mut self, m: &Module, e: &Expr) -> (value: Operand)
        requires
            old(self).well_blocked(),
            !old(self).terminated,
            e.kind is Index,
        ensures
            final(self).well_blocked(),
            !final(self).terminated,
            old(self).next_temp <= final(self).next_temp,
            final(self).next_temp < u64::MAX ==> lowered_in(value.repr@, old(self).next_temp as int, final(self).next_temp as int),
            value.ty is Value && final(self).next_temp < u64::MAX && final(self).next_label < u64::MAX
                ==> ends_with_checked_load(line_views(final(self).lines@), value.repr@),
        decreases e, 1int,
    {
        let ghost lo = self.next_temp;
        let value = match &e.kind {
            ExprKind::Index { base, index } => match self.lvalue(m, e) {
                Some(place) => {
                    let ghost accessed = line_views(self.lines@);
                    let ghost ty_text = llvm_type_text(place.ty);
                    let ghost pointer = place.pointer@;
                    let loaded = self.load(place);
                    proof {
                        if self.next_temp < u64::MAX && self.next_label < u64::MAX {
                            assert(line_views(self.lines@).drop_last() =~= accessed);
                            assert(line_views(self.lines@).last() == load_line(loaded.repr@, ty_text, pointer));
                        }
                    }
                    loaded
                },
                None => {
                    let array = self.expression(m, &**base);
                    let array_ty = operand_type(&array);
                    match &array_ty {
                        ValueType::Array { element, length } => {
                            let n: usize = match length {
                                ArrayLength::Resolved(n) => *n,
                                _ => 0,
                            };
                            let array_type = llvm_value_type(&array_ty);
                            let storage = self.entry_alloca(&array_type);
                            self.instruction(
                                concat(
                                    &vec!["store ", array_type.as_str(), " ", array.repr.as_str(), ", ptr ", storage.as_str()],
                                ),
                            );
                            let position = self.expression(m, &**index);
                            let ghost pre = line_views(self.lines@);
                            let ghost t = self.next_temp as nat;
                            let ghost l = self.next_label as nat;
                            self.bounds_check(&position.repr, n);
                            let pointer = self.temp();
                            let access = concat(
                                &vec![
                                    pointer.as_str(),
                                    " = getelementptr inbounds ",
                                    array_type.as_str(),
                                    ", ptr ",
                                    storage.as_str(),
                                    ", i32 0, i32 ",
                                    position.repr.as_str(),
                                ],
                            );
                            assert(access@ == pointer@ + " = getelementptr inbounds "@ + array_type@ + ", ptr "@
                                + storage@ + ", i32 0, i32 "@ + position.repr@) by {
                                reveal_with_fuel(joined, 8);
                            }
                            self.instruction(access);
                            let ghost accessed = line_views(self.lines@);
                            proof {
                                if self.next_temp < u64::MAX && self.next_label < u64::MAX {
                                    let gep = element_pointer_line(pointer@, array_type@, storage@, position.repr@);
                                    assert("  "@ + access@ =~= gep);
                                    assert(accessed =~= checked_access(pre, position.repr@, n as nat, t, l, array_type@, storage@, pointer@));
                                }
                            }
                            let element_ty: ValueType = (**element).clone();
                            let ghost ty_text = llvm_type_text(element_ty);
                            let loaded = self.load(Place { ty: element_ty, pointer });
                            proof {
                                if self.next_temp < u64::MAX && self.next_label < u64::MAX {
                                    assert(line_views(self.lines@).drop_last() =~= accessed);
                                    assert(ends_with_checked_access(accessed, pointer@));
                                    assert(line_views(self.lines@).last() == load_line(loaded.repr@, ty_text, pointer@));
                                }
                            }
                            loaded
                        },
                        _ => undefined(),
                    }
                },
            },
            _ => undefined(),
        };
        proof {
            if self.next_temp < u64::MAX {
                if value.repr@ == "undef"@ || !is_temp(value.repr@) {
                    lemma_spellings_are_not_temps(ConstValue::Bool(true), 0, true, seq![], seq![]);
                } else {
                    lemma_last_temp_lowered(value.repr@, lo as int, self.next_temp as int);
                }
            }
        }
        value
    }

    /// Lowers a field read `base.name`: through the storage the base names, or from the base's
    /// value.
    fn field_value(&mut self, m: &Module, e: &Expr) -> (value: Operand)
        requires
            old(self).well_blocked(),
            !old(self).terminated,
            e.kind is Field,
        ensures
            final(self).well_blocked(),
            !final(self).terminated,
            old(self).next_temp <= final(self).next_temp,
            final(self).next_temp < u64::MAX ==> lowered_in(value.repr@, old(self).next_temp as int, final(self).next_temp as int),
        decreases e, 1int,
    {
        let ghost lo = self.next_temp;
        let value = match &e.kind {
            ExprKind::Field { base, name, .. } => match self.lvalue(m, e) {
                Some(place) => self.load(place),
                None => {
                    let record = self.expression(m, &**base);
                    let record_ty = operand_type(&record);
                    match &record_ty {
                        ValueType::Struct(struct_name) => match find_struct(&m.program.structs, struct_name.as_str()) {
                            Some(declaration) => match field_position(&declaration.fields, name.as_str()) {
                                Some(i) => {
                                    let field_ty = declaration.fields[i].ty.clone();
                                    let temp = self.temp();
                                    let mut position = String::new();
                                    push_decimal(&mut position, i as u64);
                                    self.instruction(
                                        concat(
                                            &vec![
                                                temp.as_str(),
                                                " = extractvalue %spk_struct_",
                                                struct_name.as_str(),
                                                " ",
                                                record.repr.as_str(),
                                                ", ",
                                                position.as_str(),
                                            ],
                                        ),
                                    );
                                    value_operand(field_ty, temp)
                                },
                                None => undefined(),
                            },
                            None => undefined(),
                        },
                        _ => undefined(),
                    }
                },
            },
            _ => undefined(),
        };
        proof {
            if self.next_temp < u64::MAX {
                if value.repr@ == "undef"@ || !is_temp(value.repr@) {
                    lemma_spellings_are_not_temps(ConstValue::Bool(true), 0, true, seq![], seq![]);
                } else {
                    lemma_last_temp_lowered(value.repr@, lo as int, self.next_temp as int);
                }
            }
        }
        value
    }

    /// Lowers a negation or a logical not.
    fn unary_value(&mut self, m: &Module, e: &Expr) -> (value: Operand)
        requires
            old(self).well_blocked(),
            !old(self).terminated,
            e.kind is Unary,
        ensures
            final(self).well_blocked(),
            !final(self).terminated,
            old(self).next_temp <= final(self).next_temp,
            final(self).next_temp < u64::MAX ==> lowered_in(value.repr@, old(self).next_temp as int, final(self).next_temp as int),
            final(self).next_temp < u64::MAX ==> prefix_applied(
                *e,
                value.repr@,
                operand_type_of(value.ty),
                line_views(final(self).lines@),
                old(self).next_temp as int,
                final(self).next_temp as int,
                m.program.float_bits@,
            ),
        decreases e, 1int,
    {
        let ghost lo = self.next_temp;
        let value = match &e.kind {
            ExprKind::Unary { op, operand } => {
                let most_negative = match (op, &operand.kind) {
                    (UnaryOp::Negate, ExprKind::I32(x)) => *x == 2147483648,
                    _ => false,
                };
                if most_negative {
                    proof {
                        lemma_spellings_are_not_temps(ConstValue::Bool(true), 0, true, seq![], seq![]);
                    }
                    return value_operand(ValueType::I32, owned("-2147483648"));
                }
                let value = self.expression(m, &**operand);
                let value_ty = operand_type(&value);
                let temp = self.temp();
                match (op, &value_ty) {
                    (UnaryOp::Negate, ValueType::I32) => {
                        let line = concat(&vec![temp.as_str(), " = sub i32 0, ", value.repr.as_str()]);
                        assert(line@ == temp@ + " = sub i32 0, "@ + value.repr@) by {
                            reveal_with_fuel(joined, 4);
                        }
                        self.instruction(line);
                        assert("  "@ + line@ =~= "  "@ + temp@ + (" = sub i32 0, "@ + value.repr@));
                    },
                    (UnaryOp::Negate, ValueType::F32) => {
                        let line = concat(&vec![temp.as_str(), " = fsub float 0x0000000000000000, ", value.repr.as_str()]);
                        assert(line@ == temp@ + " = fsub float 0x0000000000000000, "@ + value.repr@) by {
                            reveal_with_fuel(joined, 4);
                        }
                        self.instruction(line);
                        assert("  "@ + line@ =~= "  "@ + temp@ + (" = fsub float 0x0000000000000000, "@ + value.repr@));
                    },
                    (UnaryOp::Not, ValueType::Bool) => {
                        let line = concat(&vec![temp.as_str(), " = xor i1 ", value.repr.as_str(), ", true"]);
                        assert(line@ == temp@ + " = xor i1 "@ + value.repr@ + ", true"@) by {
                            reveal_with_fuel(joined, 5);
                        }
                        self.instruction(line);
                        assert("  "@ + line@ =~= "  "@ + temp@ + (" = xor i1 "@ + value.repr@ + ", true"@));
                    },
                    _ => {},
                }
                proof {
                    if self.next_temp < u64::MAX {
                        assert(spelled_by(**operand, value.repr@, lo as int, self.next_temp - 1, m.program.float_bits@));
                    }
                }
                Operand { ty: value.ty, repr: temp }
            },
            _ => undefined(),
        };
        proof {
            if self.next_temp < u64::MAX {
                if value.repr@ == "undef"@ || !is_temp(value.repr@) {
                    lemma_spellings_are_not_temps(ConstValue::Bool(true), 0, true, seq![], seq![]);
                } else {
                    lemma_last_temp_lowered(value.repr@, lo as int, self.next_temp as int);
                }
            }
        }
        value
    }

    /// Lowers a binary expression: `&&` and `||` as branches, any other operator as one
    /// instruction on the left operand's value and then the right operand's.
    fn operator_value(&mut self, m: &Module, e: &Expr) -> (value: Operand)
        requires
            old(self).well_blocked(),
            !old(self).terminated,
            e.kind is Binary,
        ensures
            final(self).well_blocked(),
            !final(self).terminated,
            old(self).next_temp <= final(self).next_temp,
            final(self).next_temp < u64::MAX ==> lowered_in(value.repr@, old(self).next_temp as int, final(self).next_temp as int),
            final(self).next_temp < u64::MAX ==> operands_in_order(
                *e,
                value.repr@,
                line_views(final(self).lines@),
                old(self).next_temp as int,
                final(self).next_temp as int,
                m.program.float_bits@,
            ),
        decreases e, 1int,
    {
        let ghost lo = self.next_temp;
        let value = match &e.kind {
            ExprKind::Binary { left, op, right } => match op {
                BinaryOp::LogicalAnd => self.logical(m, e),
                BinaryOp::LogicalOr => self.logical(m, e),
                _ => {
                    let l = self.expression(m, &**left);
                    let ghost mid = self.next_temp;
                    let r = self.expression(m, &**right);
                    let ghost t = self.next_temp;
                    let v = self.binary(l, *op, r);
                    proof {
                        if self.next_temp < u64::MAX {
                            assert(operands_in_order(
                                *e,
                                v.repr@,
                                line_views(self.lines@),
                                lo as int,
                                self.next_temp as int,
                                m.program.float_bits@,
                            )) by {
                                assert(spelled_by(**left, l.repr@, lo as int, mid as int, m.program.float_bits@));
                                assert(spelled_by(**right, r.repr@, mid as int, self.next_temp - 1, m.program.float_bits@));
                            }
                        }
                    }
                    v
                },
            },
            _ => undefined(),
        };
        proof {
            if self.next_temp < u64::MAX {
                if value.repr@ == "undef"@ || !is_temp(value.repr@) {
                    lemma_spellings_are_not_temps(ConstValue::Bool(true), 0, true, seq![], seq![]);
                } else {
                    lemma_last_temp_lowered(value.repr@, lo as int, self.next_temp as int);
                }
            }
        }
        value
    }

    /// Lowers a call: a `void` one as an instruction, any other into a temporary.
    fn call_value(&mut self, m: &Module, e: &Expr) -> (value: Operand)
        requires
            old(self).well_blocked(),
            !old(self).terminated,
            e.kind is Call,
        ensures
            final(self).well_blocked(),
            !final(self).terminated,
            old(self).next_temp <= final(self).next_temp,
            final(self).next_temp < u64::MAX ==> lowered_in(value.repr@, old(self).next_temp as int, final(self).next_temp as int),
        decreases e, 1int,
    {
        let ghost lo = self.next_temp;
        let value = match &e.kind {
            ExprKind::Call { name, args } => {
                let arguments = self.arguments(m, args);
                match find_latest(&m.callees, name.as_str()) {
                    Some(i) => {
                        let callee = &m.callees[i].1;
                        match &callee.ret {
                            ReturnType::Void => {
                                self.instruction(
                                    concat(&vec!["call void ", callee.symbol.as_str(), "(", arguments.as_str(), ")"]),
                                );
                                proof {
                                    lemma_spellings_are_not_temps(ConstValue::Bool(true), 0, true, seq![], seq![]);
                                }
                                Operand { ty: ReturnType::Void, repr: String::new() }
                            },
                            ReturnType::Value(t) => {
                                let temp = self.temp();
                                let ty = llvm_value_type(t);
                                self.instruction(
                                    concat(
                                        &vec![
                                            temp.as_str(),
                                            " = call ",
                                            ty.as_str(),
                                            " ",
                                            callee.symbol.as_str(),
                                            "(",
                                            arguments.as_str(),
                                            ")",
                                        ],
                                    ),
                                );
                                value_operand(t.clone(), temp)
                            },
                        }
                    },
                    None => undefined(),
                }
            },
            _ => undefined(),
        };
        proof {
            if self.next_temp < u64::MAX {
                if value.repr@ == "undef"@ || !is_temp(value.repr@) {
                    lemma_spellings_are_not_temps(ConstValue::Bool(true), 0, true, seq![], seq![]);
                } else {
                    lemma_last_temp_lowered(value.repr@, lo as int, self.next_temp as int);
                }
            }
        }
        value
    }

    /// Lowers an explicit numeric conversion.
    fn conversion_value(&mut self, m: &Module, e: &Expr) -> (value: Operand)
        requires
            old(self).well_blocked(),
            !old(self).terminated,
            e.kind is Conversion,
        ensures
            final(self).well_blocked(),
            !final(self).terminated,
            old(self).next_temp <= final(self).next_temp,
            final(self).next_temp < u64::MAX ==> lowered_in(value.repr@, old(self).next_temp as int, final(self).next_temp as int),
        decreases e, 1int,
    {
        let ghost lo = self.next_temp;
        let value = match &e.kind {
            ExprKind::Conversion { target, args } => {
                if args.len() == 0 {
                    let u = undefined();
                    proof {
                        lemma_spellings_are_not_temps(ConstValue::Bool(true), 0, true, seq![], seq![]);
                    }
                    return u;
                }
                assert(decreases_to!(args@ => args@[0]));
                let ghost before_source = self.next_temp;
                let source = self.expression(m, &args[0]);
                proof {
                    if self.next_temp < u64::MAX {
                        lemma_spelled_is_lowered(args@[0], source.repr@, before_source as int, self.next_temp as int, m.program.float_bits@);
                    }
                }
                let source_ty = operand_type(&source);
                match (&source_ty, target) {
                    (ValueType::I32, ValueType::F32) => {
                        let temp = self.temp();
                        self.instruction(concat(&vec![temp.as_str(), " = sitofp i32 ", source.repr.as_str(), " to float"]));
                        value_operand(ValueType::F32, temp)
                    },
                    (ValueType::F32, ValueType::I32) => self.float_to_int(source),
                    _ => {
                        proof {
                            if self.next_temp < u64::MAX {
                                lemma_lowered_widens(source.repr@, before_source as int, self.next_temp as int, lo as int, self.next_temp as int);
                            }
                        }
                        source
                    },
                }
            },
            _ => undefined(),
        };
        proof {
            if self.next_temp < u64::MAX && value.repr@ != "undef"@ && is_temp(value.repr@) && !lowered_in(value.repr@, lo as int, self.next_temp as int) {
                lemma_last_temp_lowered(value.repr@, lo as int, self.next_temp as int);
            }
            if value.repr@ == "undef"@ {
                lemma_spellings_are_not_temps(ConstValue::Bool(true), 0, true, seq![], seq![]);
            }
        }
        value
    }

    /// The typed arguments of a call, separated by commas.
    fn arguments(&mut self, m: &Module, args: &Vec<Expr>) -> (text: String)
        requires
            old(self).well_blocked(),
            !old(self).terminated,
        ensures
            old(self).next_temp <= final(self).next_temp,
            final(self).well_blocked(),
            !final(self).terminated,
        decreases args@, 0int,
    {
        let ghost start = self.next_temp;
        let mut text = String::new();
        let mut k: usize = 0;
        while k < args.len()
            invariant
                start <= self.next_temp,
                start == old(self).next_temp,
                k <= args@.len(),
                !self.terminated,
                self.well_blocked(),
            decreases args.len() - k,
        {
            assert(decreases_to!(args@ => args@[k as int]));
            let value = self.expression(m, &args[k]);
            let ty = llvm_value_type(&operand_type(&value));
            if k > 0 {
                push_str(&mut text, ", ");
            }
            push_str(&mut text, ty.as_str());
            push_str(&mut text, " ");
            push_str(&mut text, value.repr.as_str());
            k += 1;
        }
        text
    }

    /// Lowers `left && right` or `left || right`, evaluating `right` only when it decides.
    fn logical(&mut self, m: &Module, e: &Expr) -> (value: Operand)
        requires
            old(self).well_blocked(),
            !old(self).terminated,
        ensures
            old(self).next_temp <= final(self).next_temp,
            value.repr@ == "undef"@ || last_temp(value.repr@, old(self).next_temp as int, final(self).next_temp as int),
            final(self).well_blocked(),
            !final(self).terminated,
        decreases e, 0int,
    {
        let (left, and, right) = match &e.kind {
            ExprKind::Binary { left, op: BinaryOp::LogicalAnd, right } => (&**left, true, &**right),
            ExprKind::Binary { left, op: BinaryOp::LogicalOr, right } => (&**left, false, &**right),
            _ => {
                return undefined();
            },
        };
        let l = self.expression(m, left);
        let rhs_label = self.label("logical_rhs");
        let short_label = self.label("logical_short");
        let merge_label = self.label("logical_merge");
        let short_value: &str = if and { "false" } else { "true" };
        if and {
            self.jump_if(l.repr.as_str(), &rhs_label, &short_label);
        } else {
            self.jump_if(l.repr.as_str(), &short_label, &rhs_label);
        }
        self.place_label(&short_label);
        self.jump(&merge_label);
        self.place_label(&rhs_label);
        let r = self.expression(m, right);
        let rhs_block = self.current_block.clone();
        self.jump(&merge_label);
        self.place_label(&merge_label);
        let temp = self.temp();
        self.instruction(
            concat(
                &vec![
                    temp.as_str(),
                    " = phi i1 [",
                    short_value,
                    ", %",
                    short_label.as_str(),
                    "], [",
                    r.repr.as_str(),
                    ", %",
                    rhs_block.as_str(),
                    "]",
                ],
            ),
        );
        value_operand(ValueType::Bool, temp)
    }

    /// Lowers an expression whose value has type `expected`, building array literals element
    /// by element.
    fn expression_as(&mut self, m: &Module, e: &Expr, expected: &ValueType) -> (value: Operand)
        requires
            old(self).well_blocked(),
            !old(self).terminated,
        ensures
            old(self).next_temp <= final(self).next_temp,
            final(self).well_blocked(),
            !final(self).terminated,
        decreases e, 3int,
    {
        match &e.kind {
            ExprKind::ArrayLiteral(elements) => self.array_literal(m, elements, expected),
            _ => self.expression(m, e),
        }
    }

    fn array_literal(&mut self, m: &Module, elements: &Vec<Expr>, expected: &ValueType) -> (value: Operand)
        requires
            old(self).well_blocked(),
            !old(self).terminated,
        ensures
            old(self).next_temp <= final(self).next_temp,
            final(self).well_blocked(),
            !final(self).terminated,
        decreases elements@, 0int,
    {
        let element_ty: ValueType = match expected {
            ValueType::Array { element, .. } => (**element).clone(),
            _ => ValueType::I32,
        };
        let aggregate_type = llvm_value_type(expected);
        let element_type = llvm_value_type(&element_ty);
        let mut aggregate = owned("undef");
        let mut k: usize = 0;
        let ghost start = self.next_temp;
        while k < elements.len()
            invariant
                start <= self.next_temp,
                start == old(self).next_temp,
                k <= elements@.len(),
                !self.terminated,
                self.well_blocked(),
            decreases elements.len() - k,
        {
            assert(decreases_to!(elements@ => elements@[k as int]));
            let value = self.expression_as(m, &elements[k], &element_ty);
            let temp = self.temp();
            let mut position = String::new();
            push_decimal(&mut position, k as u64);
            self.instruction(
                concat(
                    &vec![
                        temp.as_str(),
                        " = insertvalue ",
                        aggregate_type.as_str(),
                        " ",
                        aggregate.as_str(),
                        ", ",
                        element_type.as_str(),
                        " ",
                        value.repr.as_str(),
                        ", ",
                        position.as_str(),
                    ],
                ),
            );
            aggregate = temp;
            k += 1;
        }
        value_operand(expected.clone(), aggregate)
    }

    /// Lowers a struct literal, field by field in declaration order.
    fn struct_literal(&mut self, m: &Module, name: &String, inits: &Vec<FieldInitializer>) -> (value: Operand)
        requires
            old(self).well_blocked(),
            !old(self).terminated,
        ensures
            old(self).next_temp <= final(self).next_temp,
            final(self).next_temp < u64::MAX ==> value.repr@ == "undef"@ || last_temp(
                value.repr@,
                old(self).next_temp as int,
                final(self).next_temp as int,
            ),
            final(self).well_blocked(),
            !final(self).terminated,
        decreases inits@, 1int,
    {
        match find_struct(&m.program.structs, name.as_str()) {
            Some(declaration) => {
                let struct_ty = ValueType::Struct(name.clone());
                let aggregate_type = llvm_value_type(&struct_ty);
                let mut aggregate = owned("undef");
                let mut k: usize = 0;
                let ghost start = self.next_temp;
                proof {
                    reveal_strlit("undef");
                }
                while k < declaration.fields.len()
                    invariant
                        start <= self.next_temp,
                        start == old(self).next_temp,
                        self.next_temp < u64::MAX ==> aggregate@ == "undef"@ || last_temp(
                            aggregate@,
                            start as int,
                            self.next_temp as int,
                        ),
                        k <= declaration.fields@.len(),
                        !self.terminated,
                        self.well_blocked(),
                    decreases declaration.fields.len() - k,
                {
                    let field = &declaration.fields[k];
                    let value = self.initializer(m, inits, field);
                    let temp = self.temp();
                    let field_type = llvm_value_type(&field.ty);
                    let mut position = String::new();
                    push_decimal(&mut position, k as u64);
                    self.instruction(
                        concat(
                            &vec![
                                temp.as_str(),
                                " = insertvalue ",
                                aggregate_type.as_str(),
                                " ",
                                aggregate.as_str(),
                                ", ",
                                field_type.as_str(),
                                " ",
                                value.repr.as_str(),
                                ", ",
                                position.as_str(),
                            ],
                        ),
                    );
                    aggregate = temp;
                    k += 1;
                }
                value_operand(struct_ty, aggregate)
            },
            None => undefined(),
        }
    }

    /// The value of the first initializer of `field`.
    fn initializer(&mut self, m: &Module, inits: &Vec<FieldInitializer>, field: &StructField) -> (value: Operand)
        requires
            old(self).well_blocked(),
            !old(self).terminated,
        ensures
            old(self).next_temp <= final(self).next_temp,
            final(self).well_blocked(),
            !final(self).terminated,
        decreases inits@, 0int,
    {
        let mut j: usize = 0;
        let ghost start = self.next_temp;
        while j < inits.len()
            invariant
                start <= self.next_temp,
                start == old(self).next_temp,
                j <= inits@.len(),
                !self.terminated,
                self.well_blocked(),
            decreases inits.len() - j,
        {
            if str_equal(inits[j].name.as_str(), field.name.as_str()) {
                assert(decreases_to!(inits@ => inits@[j as int]));
                assert(decreases_to!(inits@[j as int] => inits@[j as int].value));
                return self.expression_as(m, &inits[j].value, &field.ty);
            }
            j += 1;
        }
        undefined()
    }

    /// The storage an assignable expression names: a variable, an element of one, or a field
    /// of one. Array elements are bounds-checked.
    fn lvalue(&mut self, m: &Module, e: &Expr) -> (place: Option<Place>)
        requires
            old(self).well_blocked(),
            !old(self).terminated,
        ensures
            old(self).next_temp <= final(self).next_temp,
            final(self).well_blocked(),
            !final(self).terminated,
            e.kind is Index && final(self).next_temp < u64::MAX && final(self).next_label < u64::MAX ==> (
            place matches Some(p) ==> ends_with_checked_access(line_views(final(self).lines@), p.pointer@)),
        decreases e, 0int,
    {
        match &e.kind {
            ExprKind::Variable(name) => self.lookup(m, name.as_str()),
            ExprKind::Index { base, index } => {
                let array = match self.lvalue(m, &**base) {
                    Some(place) => place,
                    None => {
                        return None;
                    },
                };
                let (element_ty, n): (ValueType, usize) = match &array.ty {
                    ValueType::Array { element, length } => match length {
                        ArrayLength::Resolved(n) => ((**element).clone(), *n),
                        _ => {
                            return None;
                        },
                    },
                    _ => {
                        return None;
                    },
                };
                let array_type = llvm_value_type(&array.ty);
                let position = self.expression(m, &**index);
                let ghost pre = line_views(self.lines@);
                let ghost t = self.next_temp as nat;
                let ghost l = self.next_label as nat;
                self.bounds_check(&position.repr, n);
                let pointer = self.temp();
                let access = concat(
                    &vec![
                        pointer.as_str(),
                        " = getelementptr inbounds ",
                        array_type.as_str(),
                        ", ptr ",
                        array.pointer.as_str(),
                        ", i32 0, i32 ",
                        position.repr.as_str(),
                    ],
                );
                assert(access@ == pointer@ + " = getelementptr inbounds "@ + array_type@ + ", ptr "@ + array.pointer@
                    + ", i32 0, i32 "@ + position.repr@) by {
                    reveal_with_fuel(joined, 8);
                }
                self.instruction(access);
                proof {
                    if self.next_temp < u64::MAX && self.next_label < u64::MAX {
                        let gep = element_pointer_line(pointer@, array_type@, array.pointer@, position.repr@);
                        assert("  "@ + access@ =~= gep);
                        assert(line_views(self.lines@) =~= checked_access(pre, position.repr@, n as nat, t, l, array_type@, array.pointer@, pointer@));
                    }
                }
                Some(Place { ty: element_ty, pointer })
            },
            ExprKind::Field { base, name, .. } => {
                let record = match self.lvalue(m, &**base) {
                    Some(place) => place,
                    None => {
                        return None;
                    },
                };
                let struct_name = match &record.ty {
                    ValueType::Struct(struct_name) => struct_name,
                    _ => {
                        return None;
                    },
                };
                let declaration = match find_struct(&m.program.structs, struct_name.as_str()) {
                    Some(declaration) => declaration,
                    None => {
                        return None;
                    },
                };
                let i = match field_position(&declaration.fields, name.as_str()) {
                    Some(i) => i,
                    None => {
                        return None;
                    },
                };
                let field_ty = declaration.fields[i].ty.clone();
                let aggregate_type = llvm_value_type(&record.ty);
                let pointer = self.temp();
                let mut position = String::new();
                push_decimal(&mut position, i as u64);
                self.instruction(
                    concat(
                        &vec![
                            pointer.as_str(),
                            " = getelementptr inbounds ",
                            aggregate_type.as_str(),
                            ", ptr ",
                            record.pointer.as_str(),
                            ", i32 0, i32 ",
                            position.as_str(),
                        ],
                    ),
                );
                Some(Place { ty: field_ty, pointer })
            },
            _ => None,
        }
    }
}


// ---------------------------------------------------------------------------------------------
// Statements

impl Body {
    fn statement(&mut self, m: &Module, statement: &Stmt)
        requires
            old(self).well_blocked(),
            !old(self).terminated,
        ensures
            final(self).well_blocked(),
            final(self).ends_blocks(),
        decreases statement, 0int,
    {
        match &statement.kind {
            StmtKind::Let { name, ty, init } => {
                let value = self.expression_as(m, init, ty);
                let pointer = self.temp();
                let llvm_ty = llvm_value_type(ty);
                self.instruction(concat(&vec![pointer.as_str(), " = alloca ", llvm_ty.as_str()]));
                self.instruction(
                    concat(&vec!["store ", llvm_ty.as_str(), " ", value.repr.as_str(), ", ptr ", pointer.as_str()]),
                );
                self.bind(name, Place { ty: ty.clone(), pointer });
            },
            StmtKind::Assign { target, op, value } => {
                match self.lvalue(m, target) {
                    Some(place) => {
                        let llvm_ty = llvm_value_type(&place.ty);
                        let stored = match op {
                            AssignOp::Assign => self.expression_as(m, value, &place.ty),
                            _ => {
                                let temp = self.temp();
                                self.instruction(
                                    concat(&vec![temp.as_str(), " = load ", llvm_ty.as_str(), ", ptr ", place.pointer.as_str()]),
                                );
                                let left = value_operand(place.ty.clone(), temp);
                                let right = self.expression(m, value);
                                let binary_op = match op {
                                    AssignOp::Subtract => BinaryOp::Subtract,
                                    AssignOp::Multiply => BinaryOp::Multiply,
                                    AssignOp::Divide => BinaryOp::Divide,
                                    _ => BinaryOp::Add,
                                };
                                self.binary(left, binary_op, right)
                            },
                        };
                        self.instruction(
                            concat(
                                &vec!["store ", llvm_ty.as_str(), " ", stored.repr.as_str(), ", ptr ", place.pointer.as_str()],
                            ),
                        );
                    },
                    None => {},
                }
            },
            StmtKind::Expr(e) => {
                let _ = self.expression(m, e);
            },
            StmtKind::If { condition, then_block, else_block } => {
                let c = self.expression(m, condition);
                let then_label = self.label("if_then");
                let end_label = self.label("if_end");
                match else_block {
                    Some(otherwise) => {
                        let else_label = self.label("if_else");
                        self.jump_if(c.repr.as_str(), &then_label, &else_label);
                        self.place_label(&then_label);
                        self.nested(m, then_block);
                        let then_terminated = self.terminated;
                        if !then_terminated {
                            self.jump(&end_label);
                        }
                        self.place_label(&else_label);
                        self.nested(m, otherwise);
                        let else_terminated = self.terminated;
                        if !else_terminated {
                            self.jump(&end_label);
                        }
                        self.place_label(&end_label);
                        if then_terminated && else_terminated {
                            self.unreachable();
                        }
                    },
                    None => {
                        self.jump_if(c.repr.as_str(), &then_label, &end_label);
                        self.place_label(&then_label);
                        self.nested(m, then_block);
                        if !self.terminated {
                            self.jump(&end_label);
                        }
                        self.place_label(&end_label);
                    },
                }
            },
            StmtKind::While { condition, body } => {
                let condition_label = self.label("while_condition");
                let body_label = self.label("while_body");
                let end_label = self.label("while_end");
                self.jump(&condition_label);
                self.place_label(&condition_label);
                let c = self.expression(m, condition);
                self.jump_if(c.repr.as_str(), &body_label, &end_label);
                self.place_label(&body_label);
                self.nested(m, body);
                if !self.terminated {
                    self.jump(&condition_label);
                }
                self.place_label(&end_label);
            },
            StmtKind::For { .. } => {},
            StmtKind::Return(value) => match value {
                Some(e) => {
                    let v = self.expression(m, e);
                    let llvm_ty = llvm_value_type(&operand_type(&v));
                    let returned = concat(&vec![llvm_ty.as_str(), " ", v.repr.as_str()]);
                    self.ret(returned.as_str());
                },
                None => self.ret("void"),
            },
        }
    }

    /// Lowers a block in a scope of its own.
    fn nested(&mut self, m: &Module, block: &Vec<Stmt>)
        requires
            old(self).well_blocked(),
            old(self).ends_blocks(),
        ensures
            final(self).well_blocked(),
            final(self).ends_blocks(),
        decreases block@, 1int,
    {
        self.scopes.push(Vec::new());
        self.statements(m, block);
        let _ = self.scopes.pop();
    }

    /// Lowers statements in turn, up to the first that ends its block.
    fn statements(&mut self, m: &Module, block: &Vec<Stmt>)
        requires
            old(self).well_blocked(),
            old(self).ends_blocks(),
        ensures
            final(self).well_blocked(),
            final(self).ends_blocks(),
        decreases block@, 0int,
    {
        let mut k: usize = 0;
        while k < block.len()
            invariant
                k <= block@.len(),
                self.ends_blocks(),
                self.well_blocked(),
            decreases block.len() - k,
        {
            if self.terminated {
                break;
            }
            assert(decreases_to!(block@ => block@[k as int]));
            self.statement(m, &block[k]);
            k += 1;
        }
    }
}

// ---------------------------------------------------------------------------------------------
// Functions and the module

/// The IR symbol of a function, without its `@`.
pub open spec fn function_symbol(f: Function) -> Seq<char> {
    match f.kind {
        FunctionKind::Named => "spk_fn_"@ + f.name@,
        FunctionKind::Start => "spk_start"@,
        FunctionKind::Update => "spk_update"@,
        FunctionKind::Draw => "spk_draw"@,
    }
}

/// The typed parameters of a function's definition, separated by commas.
pub open spec fn parameter_list(types: Seq<Seq<char>>, k: int) -> Seq<char>
    decreases k,
{
    if k <= 0 {
        seq![]
    } else if k == 1 {
        types[0] + " %arg"@ + decimal(0)
    } else {
        parameter_list(types, k - 1) + ", "@ + types[k - 1] + " %arg"@ + decimal((k - 1) as nat)
    }
}

/// Lines, each followed by a line break.
pub open spec fn text_lines(lines: Seq<Seq<char>>) -> Seq<char>
    decreases lines.len(),
{
    if lines.len() == 0 {
        seq![]
    } else {
        text_lines(lines.drop_last()) + lines.last() + "\n"@
    }
}

/// Whether `text` defines `f`: its first line, the entry block's label, the entry block's
/// stack slots, and the body's lines, in which each block's label comes right after an
/// instruction that ends the block before and the last line ends a block; then the closing
/// brace.
pub open spec fn definition_of(text: Seq<char>, f: Function) -> bool {
    exists|entry: Seq<Seq<char>>, lines: Seq<Seq<char>>|
        #![trigger text_lines(entry), text_lines(lines)]
        text == define_line(f) + "\nentry:\n"@ + text_lines(entry) + text_lines(lines) + "}\n"@ && blocks_follow(lines)
            && lines.len() > 0 && is_terminator_line(lines.last())
}

/// The first line of a function's definition.
pub open spec fn define_line(f: Function) -> Seq<char> {
    "define "@ + match f.return_type {
        ReturnType::Value(t) => llvm_type_text(t),
        ReturnType::Void => "void"@,
    } + " @"@ + function_symbol(f) + "("@ + parameter_list(
        f.params@.map_values(|p: crate::ast::Param| llvm_type_text(p.ty)),
        f.params@.len() as int,
    ) + ") {"@
}

fn push_function_symbol(s: &mut String, f: &Function)
    ensures
        final(s)@ == old(s)@ + function_symbol(*f),
{
    match f.kind {
        FunctionKind::Named => {
            push_str(s, "spk_fn_");
            push_str(s, f.name.as_str());
            assert(s@ =~= old(s)@ + function_symbol(*f));
        },
        FunctionKind::Start => push_str(s, "spk_start"),
        FunctionKind::Update => push_str(s, "spk_update"),
        FunctionKind::Draw => push_str(s, "spk_draw"),
    }
}

/// The definition of one function: its first line, the entry block with every stack slot the
/// body needs, the body, and a closing brace, each on a line of its own.
fn emit_function(m: &Module, f: &Function) -> (text: String)
    ensures
        text@.len() >= define_line(*f).len(),
        text@.subrange(0, define_line(*f).len() as int) == define_line(*f),
        definition_of(text@, *f),
{
    let mut scopes: Vec<Vec<(String, Place)>> = Vec::new();
    scopes.push(Vec::new());
    let mut body = Body {
        scopes,
        lines: Vec::new(),
        allocas: Vec::new(),
        next_temp: 0,
        next_label: 0,
        current_block: owned("entry"),
        terminated: false,
    };
    let ghost types = f.params@.map_values(|p: crate::ast::Param| llvm_type_text(p.ty));
    let mut head = owned("define ");
    let ret = llvm_return_type(&f.return_type);
    push_str(&mut head, ret.as_str());
    push_str(&mut head, " @");
    push_function_symbol(&mut head, f);
    push_str(&mut head, "(");
    let ghost before_params = head@;
    let mut k: usize = 0;
    while k < f.params.len()
        invariant
            k <= f.params@.len(),
            types == f.params@.map_values(|p: crate::ast::Param| llvm_type_text(p.ty)),
            head@ == before_params + parameter_list(types, k as int),
            !body.terminated,
            body.well_blocked(),
        decreases f.params.len() - k,
    {
        let param = &f.params[k];
        let llvm_ty = llvm_value_type(&param.ty);
        if k > 0 {
            push_str(&mut head, ", ");
        }
        push_str(&mut head, llvm_ty.as_str());
        push_str(&mut head, " %arg");
        push_decimal(&mut head, k as u64);
        assert(head@ =~= before_params + parameter_list(types, k + 1));
        let pointer = body.temp();
        let mut argument = owned("%arg");
        push_decimal(&mut argument, k as u64);
        body.instruction(concat(&vec![pointer.as_str(), " = alloca ", llvm_ty.as_str()]));
        body.instruction(
            concat(&vec!["store ", llvm_ty.as_str(), " ", argument.as_str(), ", ptr ", pointer.as_str()]),
        );
        body.bind(&param.name, Place { ty: param.ty.clone(), pointer });
        k += 1;
    }
    push_str(&mut head, ") {");
    assert(head@ =~= define_line(*f));
    body.statements(m, &f.body);
    if !body.terminated {
        match &f.return_type {
            ReturnType::Void => body.ret("void"),
            ReturnType::Value(_) => body.unreachable(),
        }
    }
    let ghost n = body.allocas@.len();
    let ghost entry = Seq::new(n, |i: int| body.allocas@[n - 1 - i]@);
    let ghost lines = line_views(body.lines@);
    let mut rest = owned("\nentry:\n");
    let ghost start = rest@;
    let mut j: usize = body.allocas.len();
    assert(entry.take(0) =~= Seq::<Seq<char>>::empty());
    while j > 0
        invariant
            j <= body.allocas@.len(),
            n == body.allocas@.len(),
            entry == Seq::new(n, |i: int| body.allocas@[n - 1 - i]@),
            rest@ == start + text_lines(entry.take(n - j)),
        decreases j,
    {
        push_str(&mut rest, body.allocas[j - 1].as_str());
        push_str(&mut rest, "\n");
        assert(entry.take(n - j + 1).drop_last() =~= entry.take(n - j));
        assert(entry[n - j] == body.allocas@[j - 1]@);
        assert(rest@ =~= start + text_lines(entry.take(n - j + 1)));
        j -= 1;
    }
    assert(entry.take(n as int) =~= entry);
    assert(body.terminated && body.ends_blocks() && body.well_blocked());
    let ghost entry_text = rest@;
    let mut i: usize = 0;
    assert(lines.take(0) =~= Seq::<Seq<char>>::empty());
    while i < body.lines.len()
        invariant
            i <= body.lines@.len(),
            lines == line_views(body.lines@),
            rest@ == entry_text + text_lines(lines.take(i as int)),
        decreases body.lines.len() - i,
    {
        push_str(&mut rest, body.lines[i].as_str());
        push_str(&mut rest, "\n");
        assert(lines.take(i + 1).drop_last() =~= lines.take(i as int));
        assert(rest@ =~= entry_text + text_lines(lines.take(i + 1)));
        i += 1;
    }
    assert(lines.take(i as int) =~= lines);
    push_str(&mut rest, "}\n");
    let ghost line = head@;
    let mut text = head;
    push_str(&mut text, rest.as_str());
    assert(text@.subrange(0, line.len() as int) =~= line);
    proof {
        assert(text@ =~= define_line(*f) + "\nentry:\n"@ + text_lines(entry) + text_lines(lines) + "}\n"@);
        assert(lines.last() == body.lines@.last()@);
        assert(definition_of(text@, *f));
    }
    text
}


/// The target triple as text, where one is given.
pub open spec fn triple_view(target_triple: Option<&str>) -> Option<Seq<char>> {
    match target_triple {
        Some(t) => Some(t@),
        None => None,
    }
}

/// The lines a module starts with: the game's title on one line in a comment, the source file
/// name, and the target triple where one is given.
pub open spec fn module_header(title: Seq<char>, target_triple: Option<Seq<char>>) -> Seq<char> {
    "; Speck game: "@ + one_line(title) + "\n"@ + "source_filename = \"speck\"\n"@ + match target_triple {
        Some(t) => "target triple = \""@ + t + "\"\n"@,
        None => seq![],
    }
}

/// Whether `ir` starts with `header`.
pub open spec fn starts_with(ir: Seq<char>, header: Seq<char>) -> bool {
    ir.len() >= header.len() && ir.subrange(0, header.len() as int) == header
}

/// The first `k` types of a list, spelled and separated by commas.
pub open spec fn type_list(types: Seq<ValueType>, k: int) -> Seq<char>
    decreases k,
{
    if k <= 0 {
        seq![]
    } else if k == 1 {
        llvm_type_text(types[0])
    } else {
        type_list(types, k - 1) + ", "@ + llvm_type_text(types[k - 1])
    }
}

/// The spelling of a return type.
pub open spec fn return_text(r: ReturnType) -> Seq<char> {
    match r {
        ReturnType::Value(t) => llvm_type_text(t),
        ReturnType::Void => "void"@,
    }
}

/// The declaration of the runtime function at `index`.
pub open spec fn declaration_line(index: int) -> Seq<char> {
    let (_, params, ret, symbol) = builtin_signature(index);
    "declare "@ + return_text(ret) + " "@ + symbol + "("@ + type_list(params, params.len() as int) + ")\n"@
}

/// The declarations of the first `k` runtime functions.
pub open spec fn declaration_lines(k: int) -> Seq<char>
    decreases k,
{
    if k <= 0 {
        seq![]
    } else {
        declaration_lines(k - 1) + declaration_line(k - 1)
    }
}

/// The declarations a module makes: each runtime function, then the bounds failure handler.
pub open spec fn declarations() -> Seq<char> {
    declaration_lines(BUILTIN_COUNT as int) + "declare void @crumb_bounds_fail(i32, i32)\n"@
}

/// The types of the first `k` fields, spelled and separated by commas.
pub open spec fn field_types(fields: Seq<StructField>, k: int) -> Seq<char>
    decreases k,
{
    if k <= 0 {
        seq![]
    } else if k == 1 {
        llvm_type_text(fields[0].ty)
    } else {
        field_types(fields, k - 1) + ", "@ + llvm_type_text(fields[k - 1].ty)
    }
}

/// The type definition of a struct.
pub open spec fn struct_line(d: StructDecl) -> Seq<char> {
    "%spk_struct_"@ + d.name@ + " = type { "@ + field_types(d.fields@, d.fields@.len() as int) + " }\n"@
}

/// The type definitions of the first `k` structs.
pub open spec fn struct_lines(ds: Seq<StructDecl>, k: int) -> Seq<char>
    decreases k,
{
    if k <= 0 {
        seq![]
    } else {
        struct_lines(ds, k - 1) + struct_line(ds[k - 1])
    }
}

/// The definition of a constant whose value is an aggregate; nothing for another.
pub open spec fn constant_line(c: Constant, v: Option<ConstValue>) -> Seq<char> {
    match v {
        Some(value) => if is_aggregate(value) {
            "@spk_const_"@ + c.name@ + " = internal constant "@ + llvm_type_text(c.ty) + " "@ + constant_spelling(value)
                + "\n"@
        } else {
            seq![]
        },
        None => seq![],
    }
}

/// The definitions of the aggregate constants among the first `k`, with the values `vs` by
/// position.
pub open spec fn constant_lines(cs: Seq<Constant>, vs: Seq<Option<ConstValue>>, k: int) -> Seq<char>
    decreases k,
{
    if k <= 0 {
        seq![]
    } else {
        constant_lines(cs, vs, k - 1) + if k - 1 < vs.len() {
            constant_line(cs[k - 1], vs[k - 1])
        } else {
            seq![]
        }
    }
}

/// Whether an entry holds an aggregate value.
pub open spec fn aggregate_entry(v: Option<ConstValue>) -> bool {
    match v {
        Some(value) => is_aggregate(value),
        None => false,
    }
}

/// Whether a value among the first `k` of `vs` is an aggregate.
pub open spec fn any_aggregate(vs: Seq<Option<ConstValue>>, k: int) -> bool
    decreases k,
{
    if k <= 0 {
        false
    } else {
        any_aggregate(vs, k - 1) || (k - 1 < vs.len() && aggregate_entry(vs[k - 1]))
    }
}

/// The definition of a global with its initial value, `undef` where it is not known.
pub open spec fn global_line(g: Global, v: Option<ConstValue>) -> Seq<char> {
    "@spk_global_"@ + g.name@ + " = internal global "@ + llvm_type_text(g.ty) + " "@ + match v {
        Some(value) => constant_spelling(value),
        None => "undef"@,
    } + "\n"@
}

/// The definitions of the first `k` globals.
pub open spec fn global_lines(gs: Seq<Global>, vs: Seq<Option<ConstValue>>, k: int) -> Seq<char>
    decreases k,
{
    if k <= 0 {
        seq![]
    } else {
        global_lines(gs, vs, k - 1) + global_line(gs[k - 1], vs[k - 1])
    }
}

/// The smaller of two lengths.
pub open spec fn shorter(a: nat, b: nat) -> int {
    if a < b {
        a as int
    } else {
        b as int
    }
}

/// Everything a module holds before its function definitions: the header, the declarations,
/// the struct types where there are any, and the aggregate constants and globals where there
/// are any, each block after a blank line.
pub open spec fn module_prelude(p: Program, v: InitialValues, target_triple: Option<Seq<char>>) -> Seq<char> {
    module_header(p.title@, target_triple) + "\n"@ + declarations() + if p.structs@.len() > 0 {
        "\n"@ + struct_lines(p.structs@, p.structs@.len() as int)
    } else {
        seq![]
    } + if p.globals@.len() > 0 || any_aggregate(v.constants@, p.constants@.len() as int) {
        "\n"@ + constant_lines(p.constants@, v.constants@, p.constants@.len() as int) + global_lines(
            p.globals@,
            v.globals@,
            shorter(p.globals@.len(), v.globals@.len()),
        )
    } else {
        seq![]
    }
}

/// Function definitions, each after a blank line.
pub open spec fn definitions(texts: Seq<Seq<char>>) -> Seq<char>
    decreases texts.len(),
{
    if texts.len() == 0 {
        seq![]
    } else {
        definitions(texts.drop_last()) + "\n"@ + texts.last()
    }
}

/// Whether `ir` is a module of `p` with values `v`: its prelude, then one definition for each
/// function in order, as `definition_of` says.
#[verifier::opaque]
pub open spec fn module_of(ir: Seq<char>, p: Program, v: InitialValues, target_triple: Option<Seq<char>>) -> bool {
    exists|texts: Seq<Seq<char>>|
        #![trigger definitions(texts)]
        texts.len() == p.functions@.len() && (forall|i: int|
            0 <= i < texts.len() ==> definition_of(#[trigger] texts[i], p.functions@[i]))
            && ir == module_prelude(p, v, target_triple) + definitions(texts)
}

fn push_types(s: &mut String, types: &Vec<ValueType>)
    ensures
        final(s)@ == old(s)@ + type_list(types@, types@.len() as int),
{
    let ghost start = s@;
    let mut k: usize = 0;
    while k < types.len()
        invariant
            k <= types@.len(),
            s@ == start + type_list(types@, k as int),
        decreases types.len() - k,
    {
        if k > 0 {
            push_str(s, ", ");
        }
        let t = llvm_value_type(&types[k]);
        push_str(s, t.as_str());
        assert(s@ =~= start + type_list(types@, k + 1));
        k += 1;
    }
}

fn push_declarations(s: &mut String)
    ensures
        final(s)@ == old(s)@ + declarations(),
{
    let builtins = functions();
    let ghost start = s@;
    let mut k: usize = 0;
    while k < builtins.len()
        invariant
            k <= builtins@.len(),
            builtins@.len() == BUILTIN_COUNT,
            forall|i: int|
                0 <= i < BUILTIN_COUNT ==> ((#[trigger] builtins@[i]).name@, builtins@[i].params@,
                    builtins@[i].return_type, builtins@[i].llvm_symbol@) == builtin_signature(i),
            s@ == start + declaration_lines(k as int),
        decreases builtins.len() - k,
    {
        let b = &builtins[k];
        assert((b.name@, b.params@, b.return_type, b.llvm_symbol@) == builtin_signature(k as int));
        let ret = llvm_return_type(&b.return_type);
        push_str(s, "declare ");
        push_str(s, ret.as_str());
        push_str(s, " ");
        push_str(s, b.llvm_symbol);
        push_str(s, "(");
        push_types(s, &b.params);
        push_str(s, ")\n");
        assert(s@ =~= start + declaration_lines(k + 1));
        k += 1;
    }
    push_str(s, "declare void @crumb_bounds_fail(i32, i32)\n");
    assert(s@ =~= start + declarations());
}

fn push_struct_types(s: &mut String, structs: &Vec<StructDecl>)
    ensures
        final(s)@ == old(s)@ + struct_lines(structs@, structs@.len() as int),
{
    let ghost start = s@;
    let mut k: usize = 0;
    while k < structs.len()
        invariant
            k <= structs@.len(),
            s@ == start + struct_lines(structs@, k as int),
        decreases structs.len() - k,
    {
        let declaration = &structs[k];
        let ghost line_start = s@;
        push_str(s, "%spk_struct_");
        push_str(s, declaration.name.as_str());
        push_str(s, " = type { ");
        let ghost fields_start = s@;
        let mut j: usize = 0;
        while j < declaration.fields.len()
            invariant
                j <= declaration.fields@.len(),
                s@ == fields_start + field_types(declaration.fields@, j as int),
            decreases declaration.fields.len() - j,
        {
            if j > 0 {
                push_str(s, ", ");
            }
            let t = llvm_value_type(&declaration.fields[j].ty);
            push_str(s, t.as_str());
            assert(s@ =~= fields_start + field_types(declaration.fields@, j + 1));
            j += 1;
        }
        push_str(s, " }\n");
        assert(s@ =~= line_start + struct_line(*declaration));
        assert(s@ =~= start + struct_lines(structs@, k + 1));
        k += 1;
    }
}

/// The places of a module's globals and aggregate constants, and the definitions of those
/// constants and globals.
fn module_data(program: &Program, values: &InitialValues) -> (result: (Vec<(String, Place)>, String, bool))
    ensures
        result.1@ == constant_lines(program.constants@, values.constants@, program.constants@.len() as int)
            + global_lines(program.globals@, values.globals@, shorter(program.globals@.len(), values.globals@.len())),
        result.2 == any_aggregate(values.constants@, program.constants@.len() as int),
{
    let mut k: usize = 0;
    let mut places: Vec<(String, Place)> = Vec::new();
    while k < program.globals.len()
        invariant
            k <= program.globals@.len(),
        decreases program.globals.len() - k,
    {
        let g = &program.globals[k];
        let mut pointer = owned("@spk_global_");
        push_str(&mut pointer, g.name.as_str());
        places.push((g.name.clone(), Place { ty: g.ty.clone(), pointer }));
        k += 1;
    }
    let mut data = String::new();
    let mut aggregates = false;
    k = 0;
    while k < program.constants.len()
        invariant
            k <= program.constants@.len(),
            data@ == constant_lines(program.constants@, values.constants@, k as int),
            aggregates == any_aggregate(values.constants@, k as int),
        decreases program.constants.len() - k,
    {
        let c = &program.constants[k];
        if k < values.constants.len() {
            match &values.constants[k] {
                Some(v) => {
                    if aggregate(v) {
                        aggregates = true;
                        let mut pointer = owned("@spk_const_");
                        push_str(&mut pointer, c.name.as_str());
                        let ty = llvm_value_type(&c.ty);
                        let text = constant_text(v);
                        push_str(&mut data, pointer.as_str());
                        push_str(&mut data, " = internal constant ");
                        push_str(&mut data, ty.as_str());
                        push_str(&mut data, " ");
                        push_str(&mut data, text.as_str());
                        push_str(&mut data, "\n");
                        places.push((c.name.clone(), Place { ty: c.ty.clone(), pointer }));
                    }
                },
                None => {},
            }
        }
        assert(data@ =~= constant_lines(program.constants@, values.constants@, k + 1));
        k += 1;
    }
    let ghost constants_part = data@;
    k = 0;
    while k < program.globals.len() && k < values.globals.len()
        invariant
            k <= program.globals@.len(),
            k <= values.globals@.len(),
            data@ == constants_part + global_lines(program.globals@, values.globals@, k as int),
        decreases program.globals.len() - k,
    {
        let g = &program.globals[k];
        let ty = llvm_value_type(&g.ty);
        let text = match &values.globals[k] {
            Some(v) => constant_text(v),
            None => owned("undef"),
        };
        push_str(&mut data, "@spk_global_");
        push_str(&mut data, g.name.as_str());
        push_str(&mut data, " = internal global ");
        push_str(&mut data, ty.as_str());
        push_str(&mut data, " ");
        push_str(&mut data, text.as_str());
        push_str(&mut data, "\n");
        assert(data@ =~= constants_part + global_lines(program.globals@, values.globals@, k + 1));
        k += 1;
    }
    assert(k == shorter(program.globals@.len(), values.globals@.len()));
    (places, data, aggregates)
}

/// Everything a module holds before its function definitions, with `data` the definitions of
/// its aggregate constants and globals.
fn prelude(program: &Program, values: &InitialValues, target_triple: Option<&str>, data: &String, aggregates: bool) -> (ir: String)
    requires
        data@ == constant_lines(program.constants@, values.constants@, program.constants@.len() as int)
            + global_lines(program.globals@, values.globals@, shorter(program.globals@.len(), values.globals@.len())),
        aggregates == any_aggregate(values.constants@, program.constants@.len() as int),
    ensures
        ir@ == module_prelude(*program, *values, triple_view(target_triple)),
{
    let mut ir = owned("; Speck game: ");
    push_one_line(&mut ir, program.title.as_str());
    push_str(&mut ir, "\n");
    push_str(&mut ir, "source_filename = \"speck\"\n");
    match target_triple {
        Some(t) => {
            push_str(&mut ir, "target triple = \"");
            push_str(&mut ir, t);
            push_str(&mut ir, "\"\n");
        },
        None => {},
    }
    let ghost header = module_header(program.title@, triple_view(target_triple));
    assert(ir@ =~= header);
    push_str(&mut ir, "\n");
    push_declarations(&mut ir);
    if program.structs.len() > 0 {
        push_str(&mut ir, "\n");
        push_struct_types(&mut ir, &program.structs);
    }
    if program.globals.len() > 0 || aggregates {
        push_str(&mut ir, "\n");
        push_str(&mut ir, data.as_str());
    }
    assert(ir@ =~= module_prelude(*program, *values, triple_view(target_triple)));
    ir
}

/// The IR of a program whose constants and globals start with `values`, each by its position:
/// the header, the runtime declarations, the struct types, the aggregate constants and the
/// globals with their initial values, and each function's definition, as blocks separated by
/// blank lines. Scalar constants are written where they are used; a value that is not known
/// (`None`) is spelled `undef`.
pub fn emit_module(program: &Program, values: &InitialValues, target_triple: Option<&str>) -> (ir: String)
    ensures
        module_of(ir@, *program, *values, triple_view(target_triple)),
        starts_with(ir@, module_header(program.title@, triple_view(target_triple))),
{
    let builtins = functions();
    let mut callees: Vec<(String, Callee)> = Vec::new();
    let mut k: usize = 0;
    while k < builtins.len()
        invariant
            k <= builtins@.len(),
        decreases builtins.len() - k,
    {
        callees.push(
            (owned(builtins[k].name), Callee { ret: copy_return(&builtins[k].return_type), symbol: owned(builtins[k].llvm_symbol) }),
        );
        k += 1;
    }
    k = 0;
    while k < program.functions.len()
        invariant
            k <= program.functions@.len(),
        decreases program.functions.len() - k,
    {
        let f = &program.functions[k];
        match f.kind {
            FunctionKind::Named => {
                let mut symbol = owned("@spk_fn_");
                push_str(&mut symbol, f.name.as_str());
                callees.push((f.name.clone(), Callee { ret: copy_return(&f.return_type), symbol }));
            },
            _ => {},
        }
        k += 1;
    }
    let (places, data, aggregates) = module_data(program, values);
    let m = Module { program, values, places, callees, predefined: constants(Resolution::default()) };
    let mut ir = prelude(program, values, target_triple, &data, aggregates);
    let ghost header = module_header(program.title@, triple_view(target_triple));
    let ghost prelude = module_prelude(*program, *values, triple_view(target_triple));
    let ghost mut texts: Seq<Seq<char>> = seq![];
    k = 0;
    while k < program.functions.len()
        invariant
            k <= program.functions@.len(),
            texts.len() == k,
            forall|i: int|
                0 <= i < k ==> definition_of(#[trigger] texts[i], program.functions@[i]),
            ir@ == prelude + definitions(texts),
        decreases program.functions.len() - k,
    {
        let text = emit_function(&m, &program.functions[k]);
        push_str(&mut ir, "\n");
        push_str(&mut ir, text.as_str());
        proof {
            let next = texts.push(text@);
            assert(next.drop_last() =~= texts);
            texts = next;
        }
        assert(ir@ =~= prelude + definitions(texts));
        k += 1;
    }
    assert(module_of(ir@, *program, *values, triple_view(target_triple))) by {
        reveal(module_of);
    }
    assert(ir@.subrange(0, header.len() as int) =~= header);
    ir
}

/// The IR of a checked program, for `target_triple` where one is given. Constants and globals
/// start with the values checking found; one that rests on `f32` arithmetic is spelled `undef`
/// (`emit_completed` takes such values from its caller).
pub fn emit_for_target(program: &CheckedProgram, target_triple: Option<&str>) -> (ir: String)
    ensures
        module_of(ir@, program.program(), program.initial(), triple_view(target_triple)),
        starts_with(ir@, module_header(program.program().title@, triple_view(target_triple))),
{
    emit_module(program.ast(), program.values(), target_triple)
}

/// The IR of a checked program with no target triple.
pub fn emit(program: &CheckedProgram) -> (ir: String)
    ensures
        module_of(ir@, program.program(), program.initial(), None),
        starts_with(ir@, module_header(program.program().title@, None)),
{
    emit_for_target(program, None)
}

/// Each value of `own`, and where it is unknown, the value of `supplied` at that position.
pub open spec fn completed(own: Seq<Option<ConstValue>>, supplied: Seq<Option<ConstValue>>) -> Seq<
    Option<ConstValue>,
> {
    Seq::new(
        own.len(),
        |i: int|
            if own[i] is Some {
                own[i]
            } else if i < supplied.len() {
                supplied[i]
            } else {
                None
            },
    )
}

fn complete(own: &Vec<Option<ConstValue>>, supplied: &Vec<Option<ConstValue>>) -> (values: Vec<Option<ConstValue>>)
    ensures
        values@ == completed(own@, supplied@),
{
    let mut values: Vec<Option<ConstValue>> = Vec::new();
    let mut k: usize = 0;
    while k < own.len()
        invariant
            k <= own@.len(),
            values@ == completed(own@, supplied@).take(k as int),
        decreases own.len() - k,
    {
        let value = match &own[k] {
            Some(v) => Some(copy_value(v)),
            None => if k < supplied.len() {
                match &supplied[k] {
                    Some(v) => Some(copy_value(v)),
                    None => None,
                }
            } else {
                None
            },
        };
        values.push(value);
        assert(values@ =~= completed(own@, supplied@).take(k + 1));
        k += 1;
    }
    assert(values@ =~= completed(own@, supplied@));
    values
}

/// The values of `own`, with those it leaves unknown taken from `supplied`.
pub fn complete_values(own: &InitialValues, supplied: &InitialValues) -> (values: InitialValues)
    ensures
        values.constants@ == completed(own.constants@, supplied.constants@),
        values.globals@ == completed(own.globals@, supplied.globals@),
{
    InitialValues { constants: complete(&own.constants, &supplied.constants), globals: complete(&own.globals, &supplied.globals) }
}

/// The IR of a checked program whose initial values that rest on `f32` arithmetic are given by
/// the caller in `supplied`, by position.
pub fn emit_completed(program: &CheckedProgram, supplied: &InitialValues, target_triple: Option<&str>) -> (ir: String)
    ensures
        exists|values: InitialValues|
            #![trigger module_of(ir@, program.program(), values, triple_view(target_triple))]
            values.constants@ == completed(program.initial().constants@, supplied.constants@) && values.globals@
                == completed(program.initial().globals@, supplied.globals@) && module_of(
                ir@,
                program.program(),
                values,
                triple_view(target_triple),
            ),
        starts_with(ir@, module_header(program.program().title@, triple_view(target_triple))),
{
    let values = complete_values(program.values(), supplied);
    let ir = emit_module(program.ast(), &values, target_triple);
    assert(module_of(ir@, program.program(), values, triple_view(target_triple)));
    ir
}


/// Lexes, parses and checks a source file as `analyze` does, with `float_bits` giving the bit
/// patterns of its floating-point literals, and gives the IR of a game that checks, for
/// `target_triple`; otherwise the diagnostics `analyze` gives.
pub fn compile_to_llvm_for_target(source: &str, float_bits: Vec<(String, u32)>, target_triple: &str) -> (result: Result<
    String,
    Vec<Diagnostic>,
>)
    ensures
        lexed(source.spec_bytes()) matches Err(errors) ==> result matches Err(ds) && ds@.map_values(
            |d: Diagnostic| (d.message@, d.span),
        ) == errors,
        result matches Ok(ir) ==> lexed(source.spec_bytes()) is Ok && exists|p: Program, v: InitialValues|
            #[trigger] module_of(ir@, p, v, Some(target_triple@)) && checks_clean(p) && initial_values_of(p, v)
                && p.float_bits == float_bits,
        result matches Err(ds) ==> ds@.len() > 0 && (lexed(source.spec_bytes()) is Err || parse_refused(
            source.spec_bytes(),
            ds@,
        ) || check_reports(findings(ds@))),
{
    compile(source, float_bits, Some(target_triple))
}

/// `compile_to_llvm_for_target` with no target triple in the IR.
pub fn compile_to_llvm(source: &str, float_bits: Vec<(String, u32)>) -> (result: Result<String, Vec<Diagnostic>>)
    ensures
        lexed(source.spec_bytes()) matches Err(errors) ==> result matches Err(ds) && ds@.map_values(
            |d: Diagnostic| (d.message@, d.span),
        ) == errors,
        result matches Ok(ir) ==> lexed(source.spec_bytes()) is Ok && exists|p: Program, v: InitialValues|
            #[trigger] module_of(ir@, p, v, None) && checks_clean(p) && initial_values_of(p, v) && p.float_bits
                == float_bits,
        result matches Err(ds) ==> ds@.len() > 0 && (lexed(source.spec_bytes()) is Err || parse_refused(
            source.spec_bytes(),
            ds@,
        ) || check_reports(findings(ds@))),
{
    compile(source, float_bits, None)
}

#[verifier::rlimit(100)]
#[verifier::spinoff_prover]
fn compile(source: &str, float_bits: Vec<(String, u32)>, target_triple: Option<&str>) -> (result: Result<
    String,
    Vec<Diagnostic>,
>)
    ensures
        lexed(source.spec_bytes()) matches Err(errors) ==> result matches Err(ds) && ds@.map_values(
            |d: Diagnostic| (d.message@, d.span),
        ) == errors,
        result matches Ok(ir) ==> lexed(source.spec_bytes()) is Ok && exists|p: Program, v: InitialValues|
            #[trigger] module_of(ir@, p, v, triple_view(target_triple)) && checks_clean(p) && initial_values_of(p, v)
                && p.float_bits == float_bits,
        result matches Err(ds) ==> ds@.len() > 0 && (lexed(source.spec_bytes()) is Err || parse_refused(
            source.spec_bytes(),
            ds@,
        ) || check_reports(findings(ds@))),
{
    let ghost bits = float_bits;
    match analyze(source, float_bits) {
        Ok(program) => {
            let _ = program.values();
            let ir = emit_for_target(&program, target_triple);
            let ghost ir_text = ir@;
            let result: Result<String, Vec<Diagnostic>> = Ok(ir);
            assert(result->Ok_0@ == ir_text);
            assert(module_of(result->Ok_0@, program.program(), program.initial(), triple_view(target_triple)));
            result
        },
        Err(ds) => Err(ds),
    }
}

} // verus!
