//! Type checking of function bodies and initializers against the program's declarations.
use vstd::prelude::*;

use crate::ast::{
    has_invalid_length, value_type_name, ArrayLength, AssignOp, BinaryOp, Expr, ExprKind, FieldInitializer,
    Function, Global, Param, ReturnType, Stmt, StmtKind, StructDecl, StructField, UnaryOp, ValueType,
};
use crate::diagnostic::Span;
use crate::builtins::predefined_name;
use crate::sema::block_returns_spec;
use crate::text::{decimal, signed_decimal, str_equal};
use vstd::string::StrSliceExecFns;

verus! {

// ---------------------------------------------------------------------------------------------
// Types as values

/// An array length with its names as characters.
pub enum LengthView {
    Literal(i64, Span),
    Constant(Seq<char>, Span),
    Resolved(usize),
    Invalid,
}

/// A value type with its names as characters: two types are the same exactly when their views
/// are equal.
pub enum TypeView {
    I32,
    F32,
    Bool,
    Struct(Seq<char>),
    Array(Box<TypeView>, LengthView),
}

pub open spec fn length_view(length: ArrayLength) -> LengthView {
    match length {
        ArrayLength::Literal { value, span } => LengthView::Literal(value, span),
        ArrayLength::Constant { name, span } => LengthView::Constant(name@, span),
        ArrayLength::Resolved(n) => LengthView::Resolved(n),
        ArrayLength::Invalid => LengthView::Invalid,
    }
}

pub open spec fn type_view(ty: ValueType) -> TypeView
    decreases ty,
{
    match ty {
        ValueType::I32 => TypeView::I32,
        ValueType::F32 => TypeView::F32,
        ValueType::Bool => TypeView::Bool,
        ValueType::Struct(name) => TypeView::Struct(name@),
        ValueType::Array { element, length } => TypeView::Array(Box::new(type_view(*element)), length_view(length)),
    }
}

/// Whether two array lengths are the same.
fn same_length(a: &ArrayLength, b: &ArrayLength) -> (same: bool)
    ensures
        same == (length_view(*a) == length_view(*b)),
{
    match (a, b) {
        (ArrayLength::Literal { value: x, span: s }, ArrayLength::Literal { value: y, span: t }) => *x == *y && *s == *t,
        (ArrayLength::Constant { name: x, span: s }, ArrayLength::Constant { name: y, span: t }) => str_equal(
            x.as_str(),
            y.as_str(),
        ) && *s == *t,
        (ArrayLength::Resolved(x), ArrayLength::Resolved(y)) => *x == *y,
        (ArrayLength::Invalid, ArrayLength::Invalid) => true,
        _ => false,
    }
}

/// Whether two value types are the same.
pub fn same_type(a: &ValueType, b: &ValueType) -> (same: bool)
    ensures
        same == (type_view(*a) == type_view(*b)),
    decreases a,
{
    match (a, b) {
        (ValueType::I32, ValueType::I32) => true,
        (ValueType::F32, ValueType::F32) => true,
        (ValueType::Bool, ValueType::Bool) => true,
        (ValueType::Struct(x), ValueType::Struct(y)) => str_equal(x.as_str(), y.as_str()),
        (ValueType::Array { element: x, length: m }, ValueType::Array { element: y, length: n }) => {
            let elements = same_type(x, y);
            let lengths = same_length(m, n);
            elements && lengths
        },
        _ => false,
    }
}

// ---------------------------------------------------------------------------------------------
// Literals

/// Whether an integer literal fits in `i32`.
pub open spec fn fits_i32(value: i64) -> bool {
    i32::MIN <= value <= i32::MAX
}

/// The smallest value that an `f32` cannot hold finitely: halfway between the largest finite
/// `f32` and the power of two above it, which rounds up.
pub open spec fn f32_overflow_threshold() -> nat {
    340282356779733661637539395458142568448
}

/// Whether a character is an ASCII decimal digit.
pub open spec fn is_digit_char(c: char) -> bool {
    '0' <= c && c <= '9'
}

/// The number of decimal digits that `text` starts with, counted from `i`.
pub open spec fn leading_digits(text: Seq<char>, i: int) -> int
    decreases text.len() - i,
{
    if 0 <= i < text.len() && is_digit_char(text[i]) {
        leading_digits(text, i + 1)
    } else {
        i
    }
}

/// The value of the decimal digits `text[0..n]`.
pub open spec fn digits_value(text: Seq<char>, n: int) -> nat
    decreases n,
{
    if n <= 0 {
        0
    } else {
        digits_value(text, n - 1) * 10 + ((text[n - 1] as int - 48) as nat)
    }
}

/// Whether a floating-point literal's text (digits, a point, digits) denotes a finite `f32`:
/// the value of its integer part is below the overflow threshold.
pub open spec fn float_text_finite(text: Seq<char>) -> bool {
    digits_value(text, leading_digits(text, 0)) < f32_overflow_threshold()
}

proof fn lemma_leading_digits(text: Seq<char>, i: int)
    requires
        0 <= i <= text.len(),
    ensures
        i <= leading_digits(text, i) <= text.len(),
        forall|k: int| i <= k < leading_digits(text, i) ==> is_digit_char(#[trigger] text[k]),
        leading_digits(text, i) < text.len() ==> !is_digit_char(text[leading_digits(text, i)]),
    decreases text.len() - i,
{
    if i < text.len() && is_digit_char(text[i]) {
        lemma_leading_digits(text, i + 1);
    }
}

proof fn lemma_digits_value_grows(text: Seq<char>, k: int, n: int)
    requires
        0 <= k <= n <= text.len(),
        forall|j: int| 0 <= j < n ==> is_digit_char(#[trigger] text[j]),
    ensures
        digits_value(text, k) <= digits_value(text, n),
    decreases n - k,
{
    if k < n {
        lemma_digits_value_grows(text, k, n - 1);
        assert(is_digit_char(text[n - 1]));
    }
}

/// Whether a floating-point literal's text denotes a finite `f32`.
pub fn float_literal_finite(text: &str) -> (finite: bool)
    ensures
        finite == float_text_finite(text@),
{
    let length = text.unicode_len();
    proof {
        lemma_leading_digits(text@, 0);
    }
    let threshold: u128 = 340282356779733661637539395458142568448;
    let mut value: u128 = 0;
    let mut k: usize = 0;
    while k < length && is_digit(text.get_char(k))
        invariant
            length == text@.len(),
            k <= leading_digits(text@, 0),
            leading_digits(text@, 0) <= text@.len(),
            forall|j: int| 0 <= j < leading_digits(text@, 0) ==> is_digit_char(#[trigger] text@[j]),
            leading_digits(text@, 0) < text@.len() ==> !is_digit_char(text@[leading_digits(text@, 0)]),
            value == digits_value(text@, k as int),
            value < threshold,
            threshold == f32_overflow_threshold(),
        decreases length - k,
    {
        let d = (text.get_char(k) as u32 - 48) as u128;
        assert(digits_value(text@, k + 1) == value * 10 + d);
        if value > (threshold - 1 - d) / 10 {
            proof {
                assert(value * 10 + d >= threshold) by (nonlinear_arith)
                    requires
                        value > (threshold - 1 - d) / 10,
                        d <= 9,
                        threshold > 9,
                ;
                lemma_digits_value_grows(text@, k + 1, leading_digits(text@, 0));
            }
            return false;
        }
        value = value * 10 + d;
        k += 1;
    }
    true
}

/// Whether a character is an ASCII decimal digit.
fn is_digit(c: char) -> (digit: bool)
    ensures
        digit == is_digit_char(c),
{
    '0' <= c && c <= '9'
}

// ---------------------------------------------------------------------------------------------
// What a function body sees

#[derive(Clone, Copy, Debug, PartialEq, Eq, Structural)]
pub enum Mutability {
    Mutable,
    Constant,
    LoopVariable,
}

/// A name's type and whether it may be assigned.
pub struct Binding {
    pub ty: ValueType,
    pub mutability: Mutability,
}

/// A function's parameter types and return type.
pub struct Signature {
    pub params: Vec<ValueType>,
    pub return_type: ReturnType,
}

/// The program-level names a function body sees. Later entries of a list replace earlier
/// entries with the same name, as later declarations do.
pub struct Env<'a> {
    pub globals: &'a Vec<Global>,
    pub constants: &'a Vec<(String, ValueType)>,
    pub structs: &'a Vec<StructDecl>,
    pub functions: &'a Vec<(String, Signature)>,
    /// The values of the integer constants that constant evaluation found.
    pub values: &'a Vec<(String, i32)>,
}

/// The value of the latest entry named `name`.
pub open spec fn latest<T>(entries: Seq<(String, T)>, name: Seq<char>) -> Option<T>
    decreases entries.len(),
{
    if entries.len() == 0 {
        None
    } else if entries.last().0@ == name {
        Some(entries.last().1)
    } else {
        latest(entries.drop_last(), name)
    }
}

/// The type of the latest global named `name`.
pub open spec fn latest_global(globals: Seq<Global>, name: Seq<char>) -> Option<ValueType>
    decreases globals.len(),
{
    if globals.len() == 0 {
        None
    } else if globals.last().name@ == name {
        Some(globals.last().ty)
    } else {
        latest_global(globals.drop_last(), name)
    }
}

/// The latest struct declaration named `name`.
pub open spec fn latest_struct(structs: Seq<StructDecl>, name: Seq<char>) -> Option<StructDecl>
    decreases structs.len(),
{
    if structs.len() == 0 {
        None
    } else if structs.last().name@ == name {
        Some(structs.last())
    } else {
        latest_struct(structs.drop_last(), name)
    }
}

/// The first field of `fields` named `name`.
pub open spec fn first_field(fields: Seq<StructField>, name: Seq<char>) -> Option<StructField>
    decreases fields.len(),
{
    if fields.len() == 0 {
        None
    } else if fields[0].name@ == name {
        Some(fields[0])
    } else {
        first_field(fields.drop_first(), name)
    }
}

/// The binding of `name` in the innermost scope that has one.
pub open spec fn scope_binding(scopes: Seq<Seq<(String, Binding)>>, name: Seq<char>) -> Option<Binding>
    decreases scopes.len(),
{
    if scopes.len() == 0 {
        None
    } else {
        match latest(scopes.last(), name) {
            Some(b) => Some(b),
            None => scope_binding(scopes.drop_last(), name),
        }
    }
}

/// What `name` refers to: a local, then a global, then a constant.
pub open spec fn binding_of(env: Env, scopes: Seq<Seq<(String, Binding)>>, name: Seq<char>) -> Option<(ValueType, Mutability)> {
    match scope_binding(scopes, name) {
        Some(b) => Some((b.ty, b.mutability)),
        None => match latest_global(env.globals@, name) {
            Some(ty) => Some((ty, Mutability::Mutable)),
            None => match latest(env.constants@, name) {
                Some(ty) => Some((ty, Mutability::Constant)),
                None => None,
            },
        },
    }
}

// ---------------------------------------------------------------------------------------------
// What checking an expression reports

/// Diagnostics as messages with spans, in the order they are reported.
pub type Findings = Seq<(Seq<char>, Span)>;

/// One finding.
pub open spec fn one(message: Seq<char>, span: Span) -> Findings {
    seq![(message, span)]
}

/// Whether two types are the same type.
pub open spec fn same(a: ValueType, b: ValueType) -> bool {
    type_view(a) == type_view(b)
}

/// `` `a` `` and `` `b` `` in a message.
pub open spec fn quoted_pair(a: ValueType, b: ValueType) -> Seq<char> {
    "`"@ + value_type_name(a) + "` and `"@ + value_type_name(b) + "`"@
}

/// `expected `a`, but found `b`` in a message.
pub open spec fn expects_found(expected: ValueType, actual: Seq<char>) -> Seq<char> {
    " expects `"@ + value_type_name(expected) + "`, but found `"@ + actual + "`"@
}

/// The finding for an array index whose type is not `i32`.
pub open spec fn index_type_findings(index_type: Option<ValueType>, span: Span) -> Findings {
    match index_type {
        Some(t) => if t is I32 {
            seq![]
        } else {
            one("array index must be i32, found `"@ + value_type_name(t) + "`"@, span)
        },
        None => seq![],
    }
}

/// A table by the characters of its names.
pub open spec fn named_values<T>(values: Seq<(String, T)>) -> Seq<(Seq<char>, T)> {
    values.map_values(|e: (String, T)| (e.0@, e.1))
}

/// The value of the latest entry named `name`.
pub open spec fn lookup_value<T>(values: Seq<(Seq<char>, T)>, name: Seq<char>) -> Option<T>
    decreases values.len(),
{
    if values.len() == 0 {
        None
    } else if values.last().0 == name {
        Some(values.last().1)
    } else {
        lookup_value(values.drop_last(), name)
    }
}

/// Looking a value up by name goes by the characters of the names alone.
pub proof fn lemma_lookup_named<T>(values: Seq<(String, T)>, name: Seq<char>)
    ensures
        lookup_value(named_values(values), name) == latest(values, name),
    decreases values.len(),
{
    if values.len() > 0 {
        assert(named_values(values).drop_last() =~= named_values(values.drop_last()));
        lemma_lookup_named(values.drop_last(), name);
    }
}

/// Whether an expression is the literal 2147483648, which negated is the least `i32`.
pub open spec fn is_min_magnitude(e: Expr) -> bool {
    e.kind matches ExprKind::I32(v) && v == 2147483648
}

/// The value of an `i32` constant expression, where it is made of integer literals, integer
/// constants, negation, arithmetic and conversions to `i32` of such values; `None` where it is
/// anything else or its evaluation fails.
pub open spec fn const_int(values: Seq<(Seq<char>, i32)>, e: Expr) -> Option<i32>
    decreases e,
{
    match e.kind {
        ExprKind::I32(v) => if fits_i32(v) {
            Some(v as i32)
        } else {
            None
        },
        ExprKind::Variable(name) => lookup_value(values, name@),
        ExprKind::Unary { op: UnaryOp::Negate, operand } => {
            if is_min_magnitude(*operand) {
                Some(i32::MIN)
            } else {
                match const_int(values, *operand) {
                    Some(v) => if v == i32::MIN {
                        None
                    } else {
                        Some((-v) as i32)
                    },
                    None => None,
                }
            }
        },
        ExprKind::Binary { left, op, right } => match (const_int(values, *left), const_int(values, *right)) {
            (Some(l), Some(r)) => match op {
                BinaryOp::Add => l.checked_add(r),
                BinaryOp::Subtract => l.checked_sub(r),
                BinaryOp::Multiply => l.checked_mul(r),
                BinaryOp::Divide => l.checked_div(r),
                _ => None,
            },
            _ => None,
        },
        ExprKind::Conversion { target: ValueType::I32, args } => if args.len() == 1 {
            const_int(values, args@[0])
        } else {
            None
        },
        _ => None,
    }
}

/// The finding for an index into an array of length `length` whose value is a constant
/// outside the array.
pub open spec fn constant_index_findings(values: Seq<(Seq<char>, i32)>, index: Expr, length: usize) -> Findings {
    match const_int(values, index) {
        Some(v) => if v < 0 || v >= length {
            one(
                "constant index "@ + signed_decimal(v as int) + " is out of bounds for length "@ + decimal(
                    length as nat,
                ),
                index.span,
            )
        } else {
            seq![]
        },
        None => seq![],
    }
}

/// The outcome of a binary operator on operands of types `l` and `r`.
pub open spec fn binary_outcome(op: BinaryOp, l: ValueType, r: ValueType, span: Span) -> (Option<ReturnType>, Findings) {
    if op is LogicalAnd || op is LogicalOr {
        if !(l is Bool) || !(r is Bool) {
            (None, one("Boolean operator requires `bool` operands, found "@ + quoted_pair(l, r), span))
        } else {
            (Some(ReturnType::Value(ValueType::Bool)), seq![])
        }
    } else if !same(l, r) {
        (None, one("operator operands must have the same type, found "@ + quoted_pair(l, r), span))
    } else if op is Add || op is Subtract || op is Multiply || op is Divide {
        if l is I32 || l is F32 {
            (Some(ReturnType::Value(l)), seq![])
        } else {
            (None, one("arithmetic requires `i32` or `f32` operands"@, span))
        }
    } else if op is Less || op is LessEqual || op is Greater || op is GreaterEqual {
        if l is I32 || l is F32 {
            (Some(ReturnType::Value(ValueType::Bool)), seq![])
        } else {
            (None, one("ordering comparison requires numeric operands"@, span))
        }
    } else {
        if l is I32 || l is F32 || l is Bool {
            (Some(ReturnType::Value(ValueType::Bool)), seq![])
        } else {
            (None, one("equality comparison requires scalar operands"@, span))
        }
    }
}

/// The finding for a call with the wrong number of arguments.
pub open spec fn arity_findings(name: Seq<char>, expected: nat, received: nat, span: Span) -> Findings {
    if expected == received {
        seq![]
    } else {
        one(
            "function `"@ + name + "` expects "@ + decimal(expected) + " argument(s), but received "@
                + decimal(received),
            span,
        )
    }
}

/// Whether an initializer in `inits` names `name`.
pub open spec fn initializes(inits: Seq<FieldInitializer>, name: Seq<char>) -> bool {
    exists|j: int| 0 <= j < inits.len() && (#[trigger] inits[j]).name@ == name
}

/// The findings for the declared fields that no initializer names, in declaration order.
pub open spec fn missing_findings(struct_name: Seq<char>, fields: Seq<StructField>, inits: Seq<FieldInitializer>, span: Span) -> Findings
    decreases fields.len(),
{
    if fields.len() == 0 {
        seq![]
    } else {
        let field = fields[fields.len() - 1];
        missing_findings(struct_name, fields.subrange(0, fields.len() - 1), inits, span) + if initializes(
            inits,
            field.name@,
        ) {
            seq![]
        } else {
            one("missing initializer for field `"@ + field.name@ + "` of `"@ + struct_name + "`"@, span)
        }
    }
}

/// The type of an expression and what checking it reports: `None` where it has no type that
/// checking can go on with.
pub open spec fn infer_spec(env: Env, scopes: Seq<Seq<(String, Binding)>>, e: Expr) -> (Option<ReturnType>, Findings)
    decreases e, 1int,
{
    match e.kind {
        ExprKind::I32(v) => (
            Some(ReturnType::Value(ValueType::I32)),
            if fits_i32(v) {
                seq![]
            } else {
                one("integer literal does not fit in `i32`"@, e.span)
            },
        ),
        ExprKind::F32(text) => (
            Some(ReturnType::Value(ValueType::F32)),
            if float_text_finite(text@) {
                seq![]
            } else {
                one("floating-point literal must be finite"@, e.span)
            },
        ),
        ExprKind::Bool(_) => (Some(ReturnType::Value(ValueType::Bool)), seq![]),
        ExprKind::ArrayLiteral(_) => (None, one("array literal requires an explicit array type annotation"@, e.span)),
        ExprKind::StructLiteral { .. } => struct_literal_spec(env, scopes, e),
        ExprKind::Variable(name) => match binding_of(env, scopes, name@) {
            Some((ty, _)) => (Some(ReturnType::Value(ty)), seq![]),
            None => (None, one("unknown variable `"@ + name@ + "`"@, e.span)),
        },
        ExprKind::Index { .. } => index_spec(env, scopes, e),
        ExprKind::Field { .. } => field_spec(env, scopes, e),
        ExprKind::Unary { op, operand } => {
            if op is Negate && is_min_magnitude(*operand) {
                (Some(ReturnType::Value(ValueType::I32)), seq![])
            } else {
                let (t, f) = require_value_spec(env, scopes, *operand, "unary operator"@);
                match t {
                    Some(ty) => if op is Negate && (ty is I32 || ty is F32) {
                        (Some(ReturnType::Value(ty)), f)
                    } else if op is Not && ty is Bool {
                        (Some(ReturnType::Value(ValueType::Bool)), f)
                    } else if op is Negate {
                        (None, f + one("unary `-` requires `i32` or `f32`"@, e.span))
                    } else {
                        (None, f + one("unary `!` requires `bool`"@, e.span))
                    },
                    None => (None, f),
                }
            }
        },
        ExprKind::Binary { left, op, right } => {
            let (l, lf) = require_value_spec(env, scopes, *left, "operator operand"@);
            let (r, rf) = require_value_spec(env, scopes, *right, "operator operand"@);
            match (l, r) {
                (Some(lt), Some(rt)) => {
                    let (t, f) = binary_outcome(op, lt, rt, e.span);
                    (t, lf + rf + f)
                },
                _ => (None, lf + rf),
            }
        },
        ExprKind::Call { .. } => call_spec(env, scopes, e),
        ExprKind::Conversion { .. } => conversion_spec(env, scopes, e),
    }
}

/// The value type of an expression that must have one, and what checking it reports.
pub open spec fn require_value_spec(env: Env, scopes: Seq<Seq<(String, Binding)>>, e: Expr, description: Seq<char>) -> (Option<ValueType>, Findings)
    decreases e, 2int,
{
    let (t, f) = infer_spec(env, scopes, e);
    match t {
        Some(ReturnType::Value(ty)) => (Some(ty), f),
        Some(ReturnType::Void) => (None, f + one(description + " requires a value, but found `void`"@, e.span)),
        None => (None, f),
    }
}

/// Like `require_value_spec`, but an array literal takes the expected array type, and an
/// expected type with an invalid array length is taken as it is.
pub open spec fn require_value_as_spec(
    env: Env,
    scopes: Seq<Seq<(String, Binding)>>,
    e: Expr,
    expected: ValueType,
    description: Seq<char>,
) -> (Option<ValueType>, Findings)
    decreases e, 3int,
{
    if has_invalid_length(expected) {
        (Some(expected), seq![])
    } else {
        match e.kind {
            ExprKind::ArrayLiteral(elements) => match expected {
                ValueType::Array { element, length: ArrayLength::Resolved(n) } => (
                    Some(expected),
                    (if elements.len() == n {
                        seq![]
                    } else {
                        one(
                            "expected array length "@ + decimal(n as nat) + ", found "@ + decimal(
                                elements.len() as nat,
                            ) + " elements"@,
                            e.span,
                        )
                    }) + elements_spec(env, scopes, elements@, *element),
                ),
                _ => (
                    None,
                    one(
                        description + " is an array literal, but the declared type is `"@
                            + value_type_name(expected) + "`"@,
                        e.span,
                    ),
                ),
            },
            _ => require_value_spec(env, scopes, e, description),
        }
    }
}

/// What checking the elements of an array literal against the element type reports.
pub open spec fn elements_spec(env: Env, scopes: Seq<Seq<(String, Binding)>>, elements: Seq<Expr>, element: ValueType) -> Findings
    decreases elements, 0int,
{
    if elements.len() == 0 {
        seq![]
    } else {
        let last = elements[elements.len() - 1];
        let (a, f) = require_value_as_spec(env, scopes, last, element, "array element"@);
        elements_spec(env, scopes, elements.subrange(0, elements.len() - 1), element) + f + match a {
            Some(actual) => if same(actual, element) {
                seq![]
            } else {
                one("array element"@ + expects_found(element, value_type_name(actual)), last.span)
            },
            None => seq![],
        }
    }
}

/// What inferring each expression of a list reports.
pub open spec fn infer_all_spec(env: Env, scopes: Seq<Seq<(String, Binding)>>, list: Seq<Expr>) -> Findings
    decreases list, 0int,
{
    if list.len() == 0 {
        seq![]
    } else {
        infer_all_spec(env, scopes, list.subrange(0, list.len() - 1)) + infer_spec(
            env,
            scopes,
            list[list.len() - 1],
        ).1
    }
}

/// What checking the arguments of a call to `name` against its parameter types reports.
pub open spec fn args_spec(env: Env, scopes: Seq<Seq<(String, Binding)>>, name: Seq<char>, params: Seq<ValueType>, args: Seq<Expr>) -> Findings
    decreases args, 0int,
{
    if args.len() == 0 {
        seq![]
    } else {
        let i = args.len() - 1;
        let (a, f) = require_value_spec(env, scopes, args[i], "function argument"@);
        args_spec(env, scopes, name, params, args.subrange(0, i)) + f + match a {
            Some(actual) => if i < params.len() && !same(params[i], actual) {
                one(
                    "argument "@ + decimal((i + 1) as nat) + " to `"@ + name + "`"@ + expects_found(
                        params[i],
                        value_type_name(actual),
                    ),
                    args[i].span,
                )
            } else {
                seq![]
            },
            None => seq![],
        }
    }
}

/// The type and findings of a call.
pub open spec fn call_spec(env: Env, scopes: Seq<Seq<(String, Binding)>>, e: Expr) -> (Option<ReturnType>, Findings)
    decreases e, 0int,
{
    match e.kind {
        ExprKind::Call { name, args } => match latest(env.functions@, name@) {
            None => (None, one("unknown function `"@ + name@ + "`"@, e.span) + infer_all_spec(env, scopes, args@)),
            Some(signature) => (
                Some(signature.return_type),
                arity_findings(name@, signature.params@.len(), args@.len(), e.span) + args_spec(
                    env,
                    scopes,
                    name@,
                    signature.params@,
                    args@,
                ),
            ),
        },
        _ => (None, seq![]),
    }
}

/// The type and findings of a numeric conversion.
pub open spec fn conversion_spec(env: Env, scopes: Seq<Seq<(String, Binding)>>, e: Expr) -> (Option<ReturnType>, Findings)
    decreases e, 0int,
{
    match e.kind {
        ExprKind::Conversion { target, args } => if args.len() != 1 {
            (
                None,
                one(
                    "conversion to `"@ + value_type_name(target) + "` expects 1 argument, but received "@
                        + decimal(args.len() as nat),
                    e.span,
                ) + infer_all_spec(env, scopes, args@),
            )
        } else {
            let arg = args@[0];
            let (t, f) = infer_spec(env, scopes, arg);
            match t {
                Some(ReturnType::Value(ValueType::I32)) => (Some(ReturnType::Value(target)), f),
                Some(ReturnType::Value(ValueType::F32)) => (Some(ReturnType::Value(target)), f),
                Some(ReturnType::Value(ValueType::Bool)) => (None, f + one("cannot convert `bool` to a numeric type"@, arg.span)),
                Some(ReturnType::Value(ValueType::Array { .. })) => (None, f + one("cannot convert an array to a numeric type"@, arg.span)),
                Some(ReturnType::Value(ValueType::Struct(n))) => (
                    None,
                    f + one("cannot convert struct `"@ + n@ + "` to a numeric type"@, arg.span),
                ),
                Some(ReturnType::Void) => (None, f + one("cannot convert `void` to a numeric type"@, arg.span)),
                None => (None, f),
            }
        },
        _ => (None, seq![]),
    }
}

/// The type and findings of an index expression.
pub open spec fn index_spec(env: Env, scopes: Seq<Seq<(String, Binding)>>, e: Expr) -> (Option<ReturnType>, Findings)
    decreases e, 0int,
{
    match e.kind {
        ExprKind::Index { base, index } => {
            let (b, bf) = require_value_spec(env, scopes, *base, "indexed expression"@);
            match b {
                None => (None, bf),
                Some(base_type) => {
                    let (i, idf) = require_value_spec(env, scopes, *index, "array index"@);
                    let f = bf + idf + index_type_findings(i, index.span);
                    if has_invalid_length(base_type) {
                        (None, f)
                    } else {
                        match base_type {
                            ValueType::Array { element, length: ArrayLength::Resolved(n) } => (
                                Some(ReturnType::Value(*element)),
                                f + constant_index_findings(named_values(env.values@), *index, n),
                            ),
                            _ => (None, f + one("cannot index value of type `"@ + value_type_name(base_type) + "`"@, e.span)),
                        }
                    }
                },
            }
        },
        _ => (None, seq![]),
    }
}

/// The type and findings of a field access.
pub open spec fn field_spec(env: Env, scopes: Seq<Seq<(String, Binding)>>, e: Expr) -> (Option<ReturnType>, Findings)
    decreases e, 0int,
{
    match e.kind {
        ExprKind::Field { base, name, name_span } => {
            let (b, bf) = require_value_spec(env, scopes, *base, "field access"@);
            match b {
                None => (None, bf),
                Some(ValueType::Struct(struct_name)) => match latest_struct(env.structs@, struct_name@) {
                    None => (None, bf + one("unknown struct type `"@ + struct_name@ + "`"@, base.span)),
                    Some(declaration) => match first_field(declaration.fields@, name@) {
                        None => (
                            None,
                            bf + one("type `"@ + struct_name@ + "` has no field named `"@ + name@ + "`"@, name_span),
                        ),
                        Some(field) => (Some(ReturnType::Value(field.ty)), bf),
                    },
                },
                Some(base_type) => (None, bf + one("type `"@ + value_type_name(base_type) + "` has no fields"@, name_span)),
            }
        },
        _ => (None, seq![]),
    }
}

/// The type and findings of a struct literal.
pub open spec fn struct_literal_spec(env: Env, scopes: Seq<Seq<(String, Binding)>>, e: Expr) -> (Option<ReturnType>, Findings)
    decreases e, 0int,
{
    match e.kind {
        ExprKind::StructLiteral { name, fields } => match latest_struct(env.structs@, name@) {
            None => (None, one("unknown struct type `"@ + name@ + "`"@, e.span) + initializer_values_spec(env, scopes, fields@)),
            Some(declaration) => (
                Some(ReturnType::Value(ValueType::Struct(name))),
                initializers_spec(env, scopes, name@, declaration.fields@, fields@) + missing_findings(
                    name@,
                    declaration.fields@,
                    fields@,
                    e.span,
                ),
            ),
        },
        _ => (None, seq![]),
    }
}

/// What inferring the value of each initializer reports.
pub open spec fn initializer_values_spec(env: Env, scopes: Seq<Seq<(String, Binding)>>, inits: Seq<FieldInitializer>) -> Findings
    decreases inits, 0int,
{
    if inits.len() == 0 {
        seq![]
    } else {
        initializer_values_spec(env, scopes, inits.subrange(0, inits.len() - 1)) + infer_spec(
            env,
            scopes,
            inits[inits.len() - 1].value,
        ).1
    }
}

/// What checking the initializers of a literal of struct `struct_name` against its declared
/// fields reports.
pub open spec fn initializers_spec(
    env: Env,
    scopes: Seq<Seq<(String, Binding)>>,
    struct_name: Seq<char>,
    fields: Seq<StructField>,
    inits: Seq<FieldInitializer>,
) -> Findings
    decreases inits, 0int,
{
    if inits.len() == 0 {
        seq![]
    } else {
        let earlier = inits.subrange(0, inits.len() - 1);
        let init = inits[inits.len() - 1];
        initializers_spec(env, scopes, struct_name, fields, earlier) + if initializes(earlier, init.name@) {
            one("field `"@ + init.name@ + "` is initialized more than once in `"@ + struct_name + "`"@, init.span)
                + infer_spec(env, scopes, init.value).1
        } else {
            match first_field(fields, init.name@) {
                None => one("type `"@ + struct_name + "` has no field named `"@ + init.name@ + "`"@, init.span)
                    + infer_spec(env, scopes, init.value).1,
                Some(field) => {
                    let (a, f) = require_value_as_spec(env, scopes, init.value, field.ty, "field initializer"@);
                    f + match a {
                        Some(actual) => if same(actual, field.ty) {
                            seq![]
                        } else {
                            one(
                                "field `"@ + field.name@ + "` of `"@ + struct_name + "`"@ + expects_found(
                                    field.ty,
                                    value_type_name(actual),
                                ),
                                init.value.span,
                            )
                        },
                        None => seq![],
                    }
                },
            }
        }
    }
}

// ---------------------------------------------------------------------------------------------
// What checking an assignment target reports

/// An assignment target: its type, whether it may be assigned, and the variable it is part of.
pub type Place = (ValueType, Mutability, Seq<char>);

/// The place an assignment target denotes and what checking it reports.
pub open spec fn lvalue_spec(env: Env, scopes: Seq<Seq<(String, Binding)>>, e: Expr) -> (Option<Place>, Findings)
    decreases e,
{
    match e.kind {
        ExprKind::Variable(name) => match binding_of(env, scopes, name@) {
            Some((ty, mutability)) => (Some((ty, mutability, name@)), seq![]),
            None => (None, one("cannot assign to unknown variable `"@ + name@ + "`"@, e.span)),
        },
        ExprKind::Index { base, index } => {
            let (root, rf) = lvalue_spec(env, scopes, *base);
            match root {
                None => (None, rf),
                Some((root_type, mutability, root_name)) => {
                    let (i, idf) = require_value_spec(env, scopes, *index, "array index"@);
                    let f = rf + idf + index_type_findings(i, index.span);
                    if has_invalid_length(root_type) {
                        (None, f)
                    } else {
                        match root_type {
                            ValueType::Array { element, length: ArrayLength::Resolved(n) } => (
                                Some((*element, mutability, root_name)),
                                f + constant_index_findings(named_values(env.values@), *index, n),
                            ),
                            _ => (None, f + one("cannot index value of type `"@ + value_type_name(root_type) + "`"@, e.span)),
                        }
                    }
                },
            }
        },
        ExprKind::Field { base, name, name_span } => {
            let (root, rf) = lvalue_spec(env, scopes, *base);
            match root {
                None => (None, rf),
                Some((ValueType::Struct(struct_name), mutability, root_name)) => match latest_struct(env.structs@, struct_name@) {
                    None => (None, rf + one("unknown struct type `"@ + struct_name@ + "`"@, base.span)),
                    Some(declaration) => match first_field(declaration.fields@, name@) {
                        None => (
                            None,
                            rf + one("type `"@ + struct_name@ + "` has no field named `"@ + name@ + "`"@, name_span),
                        ),
                        Some(field) => (Some((field.ty, mutability, root_name)), rf),
                    },
                },
                Some((root_type, _, _)) => (None, rf + one("type `"@ + value_type_name(root_type) + "` has no fields"@, name_span)),
            }
        },
        _ => (None, infer_spec(env, scopes, e).1 + one("invalid assignment target"@, e.span)),
    }
}

// ---------------------------------------------------------------------------------------------
// What checking a statement reports

/// The finding for a name that a predefined key constant already has.
pub open spec fn predefined_findings(name: Seq<char>, what: Seq<char>, span: Span) -> Findings {
    if predefined_name(name) {
        one(what + " `"@ + name + "` conflicts with a predefined key constant"@, span)
    } else {
        seq![]
    }
}

/// What checking a condition that must be `bool` reports.
pub open spec fn bool_findings(env: Env, scopes: Seq<Seq<(String, Binding)>>, e: Expr, description: Seq<char>) -> Findings {
    let (a, f) = require_value_spec(env, scopes, e, description);
    f + match a {
        Some(t) => if t is Bool {
            seq![]
        } else {
            one(description + " must be `bool`, found `"@ + value_type_name(t) + "`"@, e.span)
        },
        None => seq![],
    }
}

/// What checking a range bound that must be `i32` reports.
pub open spec fn bound_findings(env: Env, scopes: Seq<Seq<(String, Binding)>>, e: Expr, description: Seq<char>) -> Findings {
    let (a, f) = require_value_spec(env, scopes, e, description);
    f + match a {
        Some(t) => if t is I32 {
            seq![]
        } else {
            one(description + " must be `i32`, found `"@ + value_type_name(t) + "`"@, e.span)
        },
        None => seq![],
    }
}

/// The message for an assignment to a constant or through one.
pub open spec fn constant_assign_message(set: bool, direct: bool, root: Seq<char>) -> Seq<char> {
    if set && direct {
        "cannot assign to constant `"@ + root + "`"@
    } else if set {
        "cannot assign through constant `"@ + root + "`"@
    } else if direct {
        "cannot use compound assignment on constant `"@ + root + "`"@
    } else {
        "cannot use compound assignment through constant `"@ + root + "`"@
    }
}

/// The message for an assignment of a value of the wrong type.
pub open spec fn assign_mismatch_message(set: bool, direct: bool, root: Seq<char>, target: ValueType, actual: ValueType) -> Seq<char> {
    if set && direct {
        "cannot assign `"@ + value_type_name(actual) + "` to variable `"@ + root + "` of type `"@
            + value_type_name(target) + "`"@
    } else if set {
        "cannot assign `"@ + value_type_name(actual) + "` to target of type `"@ + value_type_name(target) + "`"@
    } else if direct {
        "compound assignment to `"@ + root + "`"@ + expects_found(target, value_type_name(actual))
    } else {
        "compound assignment"@ + expects_found(target, value_type_name(actual))
    }
}

/// What checking an assignment reports.
pub open spec fn assign_spec(env: Env, scopes: Seq<Seq<(String, Binding)>>, target: Expr, op: AssignOp, value: Expr, span: Span) -> Findings {
    let (place, lf) = lvalue_spec(env, scopes, target);
    match place {
        None => lf,
        Some((ty, mutability, root)) => {
            let (actual, af) = if op is Assign {
                require_value_as_spec(env, scopes, value, ty, "assignment"@)
            } else {
                require_value_spec(env, scopes, value, "compound assignment"@)
            };
            let direct = target.kind is Variable;
            lf + af + if mutability is LoopVariable {
                one("loop variable `"@ + root + "` is read-only"@, span)
            } else if mutability is Constant {
                one(constant_assign_message(op is Assign, direct, root), span)
            } else {
                (if !(op is Assign) && !(ty is I32 || ty is F32) {
                    one("compound assignment requires a numeric target, but found `"@ + value_type_name(ty) + "`"@, span)
                } else {
                    seq![]
                }) + match actual {
                    Some(a) => if same(ty, a) {
                        seq![]
                    } else {
                        one(assign_mismatch_message(op is Assign, direct, root, ty, a), value.span)
                    },
                    None => seq![],
                }
            }
        },
    }
}

/// What checking a `return` in a function returning `ret` reports.
pub open spec fn return_findings(env: Env, ret: ReturnType, scopes: Seq<Seq<(String, Binding)>>, value: Option<Expr>, span: Span) -> Findings {
    match (ret, value) {
        (ReturnType::Void, None) => seq![],
        (ReturnType::Void, Some(v)) => infer_spec(env, scopes, v).1 + one("void function cannot return a value"@, v.span),
        (ReturnType::Value(expected), None) => one("return requires a value of type `"@ + value_type_name(expected) + "`"@, span),
        (ReturnType::Value(expected), Some(v)) => {
            let (r, f) = if v.kind is ArrayLiteral {
                let (a, af) = require_value_as_spec(env, scopes, v, expected, "return"@);
                (
                    match a {
                        Some(t) => Some(ReturnType::Value(t)),
                        None => None,
                    },
                    af,
                )
            } else {
                infer_spec(env, scopes, v)
            };
            f + match r {
                Some(ReturnType::Value(actual)) => if same(actual, expected) {
                    seq![]
                } else {
                    one("return"@ + expects_found(expected, value_type_name(actual)), v.span)
                },
                Some(ReturnType::Void) => one("return"@ + expects_found(expected, "void"@), v.span),
                None => seq![],
            }
        },
    }
}

/// A mutable local binding.
pub open spec fn local(name: String, ty: ValueType) -> (String, Binding) {
    (name, Binding { ty, mutability: Mutability::Mutable })
}

/// The scopes after a statement: a `let` adds its binding to the innermost scope.
pub open spec fn let_effect(scopes: Seq<Seq<(String, Binding)>>, statement: Stmt) -> Seq<Seq<(String, Binding)>> {
    match statement.kind {
        StmtKind::Let { name, ty, .. } => if scopes.len() == 0 {
            scopes
        } else {
            scopes.update(scopes.len() - 1, scopes[scopes.len() - 1].push(local(name, ty)))
        },
        _ => scopes,
    }
}

/// The scopes after the statements of a block, each in turn.
pub open spec fn scopes_after(scopes: Seq<Seq<(String, Binding)>>, block: Seq<Stmt>) -> Seq<Seq<(String, Binding)>>
    decreases block.len(),
{
    if block.len() == 0 {
        scopes
    } else {
        let_effect(scopes_after(scopes, block.subrange(0, block.len() - 1)), block[block.len() - 1])
    }
}

/// The scopes a block leaves change only in the innermost one.
pub proof fn lemma_scopes_after_innermost(scopes: Seq<Seq<(String, Binding)>>, block: Seq<Stmt>)
    requires
        scopes.len() > 0,
    ensures
        scopes_after(scopes, block).len() == scopes.len(),
        scopes_after(scopes, block).drop_last() == scopes.drop_last(),
    decreases block.len(),
{
    if block.len() > 0 {
        let earlier = scopes_after(scopes, block.subrange(0, block.len() - 1));
        lemma_scopes_after_innermost(scopes, block.subrange(0, block.len() - 1));
        assert(let_effect(earlier, block[block.len() - 1]).drop_last() == earlier.drop_last());
    }
}

/// What checking a statement reports, in a function returning `ret`.
pub open spec fn statement_spec(env: Env, ret: ReturnType, scopes: Seq<Seq<(String, Binding)>>, statement: Stmt) -> Findings
    decreases statement,
{
    match statement.kind {
        StmtKind::Let { name, ty, init } => {
            let (a, f) = require_value_as_spec(env, scopes, init, ty, "variable initializer"@);
            predefined_findings(name@, "variable"@, statement.span) + f + (match a {
                Some(actual) => if same(actual, ty) {
                    seq![]
                } else {
                    one(
                        "variable `"@ + name@ + "` has type `"@ + value_type_name(ty) + "`, but its initializer has type `"@
                            + value_type_name(actual) + "`"@,
                        init.span,
                    )
                },
                None => seq![],
            }) + if scopes.len() > 0 && latest(scopes[scopes.len() - 1], name@) is Some {
                one("variable `"@ + name@ + "` is declared more than once in this block"@, statement.span)
            } else {
                seq![]
            }
        },
        StmtKind::Assign { target, op, value } => assign_spec(env, scopes, target, op, value, statement.span),
        StmtKind::Expr(e) => infer_spec(env, scopes, e).1,
        StmtKind::If { condition, then_block, else_block } => bool_findings(env, scopes, condition, "`if` condition"@)
            + block_spec(env, ret, scopes.push(seq![]), then_block@) + match else_block {
            Some(b) => block_spec(env, ret, scopes.push(seq![]), b@),
            None => seq![],
        },
        StmtKind::While { condition, body } => bool_findings(env, scopes, condition, "`while` condition"@) + block_spec(
            env,
            ret,
            scopes.push(seq![]),
            body@,
        ),
        StmtKind::For { name, name_span, lower, upper, body } => bound_findings(env, scopes, lower, "range lower bound"@)
            + bound_findings(env, scopes, upper, "range upper bound"@) + predefined_findings(
            name@,
            "loop variable"@,
            name_span,
        ) + block_spec(
            env,
            ret,
            scopes.push(seq![(name, Binding { ty: ValueType::I32, mutability: Mutability::LoopVariable })]),
            body@,
        ),
        StmtKind::Return(value) => return_findings(env, ret, scopes, value, statement.span),
    }
}

/// What checking the statements of a block reports, each in the scopes the earlier ones leave.
pub open spec fn block_spec(env: Env, ret: ReturnType, scopes: Seq<Seq<(String, Binding)>>, block: Seq<Stmt>) -> Findings
    decreases block,
{
    if block.len() == 0 {
        seq![]
    } else {
        let earlier = block.subrange(0, block.len() - 1);
        block_spec(env, ret, scopes, earlier) + statement_spec(
            env,
            ret,
            scopes_after(scopes, earlier),
            block[block.len() - 1],
        )
    }
}

// ---------------------------------------------------------------------------------------------
// What checking a function reports

/// The findings for parameters of array type.
pub open spec fn param_array_findings(params: Seq<Param>) -> Findings
    decreases params.len(),
{
    if params.len() == 0 {
        seq![]
    } else {
        let p = params[params.len() - 1];
        param_array_findings(params.subrange(0, params.len() - 1)) + if p.ty is Array {
            one("arrays are not supported as function parameters yet"@, p.span)
        } else {
            seq![]
        }
    }
}

/// The scope that a function's parameters make, in order.
pub open spec fn params_scope(params: Seq<Param>) -> Seq<(String, Binding)> {
    params.map_values(|p: Param| local(p.name, p.ty))
}

/// The findings for parameters named like a predefined constant or like an earlier parameter.
pub open spec fn param_findings(params: Seq<Param>) -> Findings
    decreases params.len(),
{
    if params.len() == 0 {
        seq![]
    } else {
        let earlier = params.subrange(0, params.len() - 1);
        let p = params[params.len() - 1];
        param_findings(earlier) + predefined_findings(p.name@, "parameter"@, p.span) + if latest(
            params_scope(earlier),
            p.name@,
        ) is Some {
            one("parameter `"@ + p.name@ + "` is declared more than once"@, p.span)
        } else {
            seq![]
        }
    }
}

/// The source spelling of a return type.
pub open spec fn return_type_name(ret: ReturnType) -> Seq<char> {
    match ret {
        ReturnType::Value(t) => value_type_name(t),
        ReturnType::Void => "void"@,
    }
}

/// What checking a function reports: its parameters, its return type, its body, and whether
/// it returns a value on every path when it must.
pub open spec fn function_spec(env: Env, function: Function) -> Findings {
    param_array_findings(function.params@) + (if function.return_type matches ReturnType::Value(
        ValueType::Array { .. },
    ) {
        one("arrays are not supported as function return types yet"@, function.span)
    } else {
        seq![]
    }) + param_findings(function.params@) + block_spec(
        env,
        function.return_type,
        seq![params_scope(function.params@)],
        function.body@,
    ) + if function.return_type is Value && !block_returns_spec(function.body@) {
        one(
            "function `"@ + function.name@ + "` may finish without returning `"@ + return_type_name(
                function.return_type,
            ) + "`"@,
            function.span,
        )
    } else {
        seq![]
    }
}

} // verus!
