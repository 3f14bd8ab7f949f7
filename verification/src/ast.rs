//! The declaration-level syntax of a Speck program: value types and operators.
use vstd::prelude::*;

use crate::diagnostic::Span;
use crate::text::{decimal, owned, push_decimal, push_signed_decimal, push_str, signed_decimal};

verus! {

#[derive(Debug, PartialEq, Eq, Hash)]
pub enum ValueType {
    I32,
    F32,
    Bool,
    Struct(String),
    Array { element: Box<ValueType>, length: ArrayLength },
}

#[derive(Debug, PartialEq, Eq, Hash)]
pub enum ArrayLength {
    Literal { value: i64, span: Span },
    Constant { name: String, span: Span },
    Resolved(usize),
    Invalid,
}

/// The text of an array length.
pub open spec fn length_text(length: ArrayLength) -> Seq<char> {
    match length {
        ArrayLength::Literal { value, .. } => signed_decimal(value as int),
        ArrayLength::Constant { name, .. } => name@,
        ArrayLength::Resolved(value) => decimal(value as nat),
        ArrayLength::Invalid => "<invalid>"@,
    }
}

/// The source spelling of a value type.
pub open spec fn value_type_name(ty: ValueType) -> Seq<char>
    decreases ty,
{
    match ty {
        ValueType::I32 => "i32"@,
        ValueType::F32 => "f32"@,
        ValueType::Bool => "bool"@,
        ValueType::Struct(name) => name@,
        ValueType::Array { element, length } => "["@ + value_type_name(*element) + "; "@ + length_text(
            length,
        ) + "]"@,
    }
}

/// Whether an array length anywhere in the type failed to resolve.
pub open spec fn has_invalid_length(ty: ValueType) -> bool
    decreases ty,
{
    match ty {
        ValueType::Array { element, length } => length is Invalid || has_invalid_length(*element),
        _ => false,
    }
}

/// The struct named by a type, looking through array element types.
pub open spec fn innermost_struct(ty: ValueType) -> Option<Seq<char>>
    decreases ty,
{
    match ty {
        ValueType::Struct(name) => Some(name@),
        ValueType::Array { element, .. } => innermost_struct(*element),
        _ => None,
    }
}

impl Clone for ValueType {
    fn clone(&self) -> (copy: ValueType)
        ensures
            copy == *self,
        decreases self,
    {
        match self {
            ValueType::I32 => ValueType::I32,
            ValueType::F32 => ValueType::F32,
            ValueType::Bool => ValueType::Bool,
            ValueType::Struct(name) => ValueType::Struct(name.clone()),
            ValueType::Array { element, length } => {
                let inner: ValueType = (**element).clone();
                ValueType::Array { element: Box::new(inner), length: length.clone() }
            },
        }
    }
}

impl Clone for ArrayLength {
    fn clone(&self) -> (copy: ArrayLength)
        ensures
            copy == *self,
    {
        match self {
            ArrayLength::Literal { value, span } => ArrayLength::Literal { value: *value, span: *span },
            ArrayLength::Constant { name, span } => ArrayLength::Constant {
                name: name.clone(),
                span: *span,
            },
            ArrayLength::Resolved(value) => ArrayLength::Resolved(*value),
            ArrayLength::Invalid => ArrayLength::Invalid,
        }
    }
}

impl ValueType {
    pub fn name(&self) -> (name: String)
        ensures
            name@ == value_type_name(*self),
        decreases self,
    {
        match self {
            ValueType::I32 => owned("i32"),
            ValueType::F32 => owned("f32"),
            ValueType::Bool => owned("bool"),
            ValueType::Struct(name) => owned(name.as_str()),
            ValueType::Array { element, length } => {
                let mut text = owned("[");
                let inner = element.name();
                push_str(&mut text, inner.as_str());
                push_str(&mut text, "; ");
                let shown = length.display();
                push_str(&mut text, shown.as_str());
                push_str(&mut text, "]");
                text
            },
        }
    }

    pub fn is_numeric(&self) -> (numeric: bool)
        ensures
            numeric == (*self is I32 || *self is F32),
    {
        match self {
            ValueType::I32 | ValueType::F32 => true,
            _ => false,
        }
    }

    pub fn resolved_array(&self) -> (array: Option<(&ValueType, usize)>)
        ensures
            match *self {
                ValueType::Array { element, length: ArrayLength::Resolved(n) } => array == Some(
                    (&*element, n),
                ),
                _ => array is None,
            },
    {
        match self {
            ValueType::Array { element, length: ArrayLength::Resolved(length) } => Some(
                (&**element, *length),
            ),
            _ => None,
        }
    }

    pub fn has_invalid_array_length(&self) -> (invalid: bool)
        ensures
            invalid == has_invalid_length(*self),
        decreases self,
    {
        match self {
            ValueType::Array { element, length } => {
                match length {
                    ArrayLength::Invalid => true,
                    _ => element.has_invalid_array_length(),
                }
            },
            _ => false,
        }
    }

    /// The struct named by this type, looking through array element types.
    pub fn struct_name(&self) -> (name: Option<&str>)
        ensures
            match (name, innermost_struct(*self)) {
                (Some(n), Some(v)) => n@ == v,
                (None, None) => true,
                _ => false,
            },
        decreases self,
    {
        match self {
            ValueType::Struct(name) => Some(name.as_str()),
            ValueType::Array { element, .. } => element.struct_name(),
            _ => None,
        }
    }
}

impl ArrayLength {
    pub fn span(&self) -> (span: Option<Span>)
        ensures
            match *self {
                ArrayLength::Literal { span: s, .. } => span == Some(s),
                ArrayLength::Constant { span: s, .. } => span == Some(s),
                _ => span is None,
            },
    {
        match self {
            ArrayLength::Literal { span, .. } => Some(*span),
            ArrayLength::Constant { span, .. } => Some(*span),
            _ => None,
        }
    }

    pub fn display(&self) -> (text: String)
        ensures
            text@ == length_text(*self),
    {
        match self {
            ArrayLength::Literal { value, .. } => {
                let mut text = String::new();
                push_signed_decimal(&mut text, *value);
                text
            },
            ArrayLength::Constant { name, .. } => owned(name.as_str()),
            ArrayLength::Resolved(value) => {
                let mut text = String::new();
                push_decimal(&mut text, *value as u64);
                text
            },
            ArrayLength::Invalid => owned("<invalid>"),
        }
    }
}

#[derive(Clone, Debug, PartialEq, Eq)]
pub enum ReturnType {
    Value(ValueType),
    Void,
}

impl ReturnType {
    pub fn name(&self) -> (name: String)
        ensures
            name@ == match *self {
                ReturnType::Value(ty) => value_type_name(ty),
                ReturnType::Void => "void"@,
            },
    {
        match self {
            ReturnType::Value(ty) => ty.name(),
            ReturnType::Void => owned("void"),
        }
    }

    pub fn value_type(&self) -> (ty: Option<&ValueType>)
        ensures
            match *self {
                ReturnType::Value(t) => ty == Some(&t),
                ReturnType::Void => ty is None,
            },
    {
        match self {
            ReturnType::Value(ty) => Some(ty),
            ReturnType::Void => None,
        }
    }

    /// The return type of a function that returns values of `ty`.
    pub fn from_value(ty: ValueType) -> (r: ReturnType)
        ensures
            r == ReturnType::Value(ty),
    {
        ReturnType::Value(ty)
    }
}

#[derive(Debug, PartialEq)]
pub struct StructDecl {
    pub name: String,
    pub fields: Vec<StructField>,
    pub span: Span,
}

#[derive(Debug, PartialEq)]
pub struct StructField {
    pub name: String,
    pub ty: ValueType,
    pub span: Span,
}

impl Clone for StructField {
    fn clone(&self) -> (copy: StructField)
        ensures
            copy == *self,
    {
        StructField { name: self.name.clone(), ty: self.ty.clone(), span: self.span }
    }
}

impl Clone for StructDecl {
    fn clone(&self) -> (copy: StructDecl)
        ensures
            copy.name == self.name,
            copy.fields@ == self.fields@,
            copy.span == self.span,
    {
        let mut fields: Vec<StructField> = Vec::new();
        let mut k: usize = 0;
        while k < self.fields.len()
            invariant
                k <= self.fields@.len(),
                fields@ == self.fields@.subrange(0, k as int),
            decreases self.fields.len() - k,
        {
            fields.push(self.fields[k].clone());
            assert(fields@ == self.fields@.subrange(0, k + 1));
            k += 1;
        }
        assert(fields@ == self.fields@);
        StructDecl { name: self.name.clone(), fields, span: self.span }
    }
}

#[derive(Clone, Copy, Debug, PartialEq, Eq, Hash, Structural)]
pub enum FunctionKind {
    Named,
    Start,
    Update,
    Draw,
}

#[derive(Clone, Debug, PartialEq)]
pub struct Param {
    pub name: String,
    pub ty: ValueType,
    pub span: Span,
}

#[derive(Clone, Copy, Debug, PartialEq, Eq, Structural)]
pub enum AssignOp {
    Assign,
    Add,
    Subtract,
    Multiply,
    Divide,
}

#[derive(Clone, Copy, Debug, PartialEq, Eq, Structural)]
pub enum UnaryOp {
    Negate,
    Not,
}

#[derive(Clone, Copy, Debug, PartialEq, Eq, Structural)]
pub enum BinaryOp {
    Add,
    Subtract,
    Multiply,
    Divide,
    Equal,
    NotEqual,
    Less,
    LessEqual,
    Greater,
    GreaterEqual,
    LogicalAnd,
    LogicalOr,
}

/// A parsed program: its title and its top-level declarations in source order.
#[derive(Debug, PartialEq)]
pub struct Program {
    pub title: String,
    pub title_span: Span,
    pub structs: Vec<StructDecl>,
    pub constants: Vec<Constant>,
    pub globals: Vec<Global>,
    pub functions: Vec<Function>,
    /// The bit pattern of the `f32` that each floating-point literal's text denotes. Parsing
    /// leaves it empty; the caller fills it in, since only it can round decimals to `f32`.
    pub float_bits: Vec<(String, u32)>,
}

/// An immutable top-level value.
#[derive(Debug, PartialEq)]
pub struct Constant {
    pub name: String,
    pub ty: ValueType,
    pub init: Expr,
    pub span: Span,
}

/// A mutable top-level value.
#[derive(Debug, PartialEq)]
pub struct Global {
    pub name: String,
    pub ty: ValueType,
    pub init: Expr,
    pub span: Span,
}

#[derive(Debug, PartialEq)]
pub struct Function {
    pub name: String,
    pub kind: FunctionKind,
    pub params: Vec<Param>,
    pub return_type: ReturnType,
    pub body: Vec<Stmt>,
    pub span: Span,
}

#[derive(Debug, PartialEq)]
pub struct Stmt {
    pub kind: StmtKind,
    pub span: Span,
}

#[derive(Debug, PartialEq)]
pub enum StmtKind {
    Let { name: String, ty: ValueType, init: Expr },
    Assign { target: Expr, op: AssignOp, value: Expr },
    Expr(Expr),
    If { condition: Expr, then_block: Vec<Stmt>, else_block: Option<Vec<Stmt>> },
    While { condition: Expr, body: Vec<Stmt> },
    For { name: String, name_span: Span, lower: Expr, upper: Expr, body: Vec<Stmt> },
    Return(Option<Expr>),
}

#[derive(Debug, PartialEq)]
pub struct Expr {
    pub kind: ExprKind,
    pub span: Span,
}

/// An expression's form. A floating-point literal keeps its source text.
#[derive(Debug, PartialEq)]
pub enum ExprKind {
    I32(i64),
    F32(String),
    Bool(bool),
    ArrayLiteral(Vec<Expr>),
    StructLiteral { name: String, fields: Vec<FieldInitializer> },
    Variable(String),
    Index { base: Box<Expr>, index: Box<Expr> },
    Field { base: Box<Expr>, name: String, name_span: Span },
    Unary { op: UnaryOp, operand: Box<Expr> },
    Binary { left: Box<Expr>, op: BinaryOp, right: Box<Expr> },
    Call { name: String, args: Vec<Expr> },
    Conversion { target: ValueType, args: Vec<Expr> },
}

#[derive(Debug, PartialEq)]
pub struct FieldInitializer {
    pub name: String,
    pub value: Expr,
    pub span: Span,
}

} // verus!
