//! Pieces of textual LLVM IR: type spellings, byte-string constants, and source-location
//! reporting for development builds.
use vstd::prelude::*;
use vstd::string::{StrSliceExecFns, StringSliceAdditionalSpecFns};
use vstd::utf8::encode_utf8;

use crate::ast::{value_type_name, ArrayLength, ReturnType, ValueType};
use crate::diagnostic::{line_column, Span};
use crate::source::SourceMap;
use crate::text::{decimal, owned, push_decimal, push_str};

verus! {

/// The uppercase hexadecimal digit of a value below sixteen.
pub open spec fn hex_digit(d: u8) -> char {
    if d < 10 {
        (48 + d) as char
    } else {
        (55 + d) as char
    }
}

/// A byte escaped as `\XX`.
pub open spec fn escaped_byte(b: u8) -> Seq<char> {
    seq!['\\', hex_digit(b / 16), hex_digit(b % 16)]
}

/// How a byte appears inside an LLVM `c"..."` constant: printable ASCII other than `"` and `\`
/// as itself, anything else escaped.
pub open spec fn byte_text(b: u8) -> Seq<char> {
    if 0x20 <= b <= 0x7e && b != 0x22 && b != 0x5c {
        seq![b as char]
    } else {
        escaped_byte(b)
    }
}

/// The texts of bytes, one after another.
pub open spec fn bytes_text(bytes: Seq<u8>, f: spec_fn(u8) -> Seq<char>) -> Seq<char>
    decreases bytes.len(),
{
    if bytes.len() == 0 {
        seq![]
    } else {
        bytes_text(bytes.drop_last(), f) + f(bytes.last())
    }
}

/// Appends the decimal notation of `n + 1`.
fn push_successor(s: &mut String, n: u64)
    ensures
        final(s)@ == old(s)@ + decimal((n + 1) as nat),
{
    if n < u64::MAX {
        push_decimal(s, n + 1);
    } else {
        push_str(s, "18446744073709551616");
        proof {
            reveal_strlit("18446744073709551616");
            reveal_with_fuel(decimal, 21);
            assert(decimal(18446744073709551616nat) =~= "18446744073709551616"@);
        }
    }
}

fn hex(d: u8) -> (c: char)
    requires
        d < 16,
    ensures
        c == hex_digit(d),
{
    if d < 10 {
        (48 + d) as char
    } else {
        (55 + d) as char
    }
}

/// Appends `\XX` for a byte.
fn push_escaped(s: &mut String, b: u8)
    ensures
        final(s)@ == old(s)@ + escaped_byte(b),
{
    s.push('\\');
    s.push(hex(b / 16));
    s.push(hex(b % 16));
    assert(final(s)@ =~= old(s)@ + escaped_byte(b));
}

/// The LLVM `c"..."` constant holding exactly `bytes`.
pub fn llvm_byte_string(bytes: &[u8]) -> (text: String)
    ensures
        text@ == seq!['c', '"'] + bytes_text(bytes@, |b: u8| byte_text(b)) + seq!['"'],
{
    let mut output = owned("c\"");
    proof {
        reveal_strlit("c\"");
        assert("c\""@ == seq!['c', '"']);
    }
    let mut k: usize = 0;
    while k < bytes.len()
        invariant
            k <= bytes@.len(),
            output@ == seq!['c', '"'] + bytes_text(bytes@.subrange(0, k as int), |b: u8| byte_text(b)),
        decreases bytes.len() - k,
    {
        assert(bytes@.subrange(0, k + 1).drop_last() == bytes@.subrange(0, k as int));
        let b = bytes[k];
        if 0x20u8 <= b && b <= 0x7eu8 && b != 0x22u8 && b != 0x5cu8 {
            output.push(b as char);
        } else {
            push_escaped(&mut output, b);
        }
        assert(output@ =~= seq!['c', '"'] + bytes_text(bytes@.subrange(0, k + 1), |b: u8| byte_text(b)));
        k += 1;
    }
    output.push('"');
    assert(bytes@.subrange(0, k as int) == bytes@);
    output
}

/// Whether every array length in a type has been resolved to a number.
pub open spec fn lengths_resolved(ty: ValueType) -> bool
    decreases ty,
{
    match ty {
        ValueType::Array { element, length } => length is Resolved && lengths_resolved(*element),
        _ => true,
    }
}

/// Whether every array length in a type is resolved, which its LLVM spelling needs.
pub fn lengths_are_resolved(ty: &ValueType) -> (resolved: bool)
    ensures
        resolved == lengths_resolved(*ty),
    decreases ty,
{
    match ty {
        ValueType::Array { element, length } => matches!(length, ArrayLength::Resolved(_)) && lengths_are_resolved(element),
        _ => true,
    }
}

/// The LLVM spelling of a value type.
pub open spec fn llvm_type_text(ty: ValueType) -> Seq<char>
    decreases ty,
{
    match ty {
        ValueType::I32 => "i32"@,
        ValueType::F32 => "float"@,
        ValueType::Bool => "i1"@,
        ValueType::Struct(name) => "%spk_struct_"@ + name@,
        ValueType::Array { element, length } => match length {
            ArrayLength::Resolved(n) => "["@ + decimal(n as nat) + " x "@ + llvm_type_text(*element) + "]"@,
            _ => seq![],
        },
    }
}

/// The LLVM spelling of a value type: empty where an array length is not resolved.
pub fn llvm_value_type(ty: &ValueType) -> (text: String)
    ensures
        text@ == llvm_type_text(*ty),
    decreases ty,
{
    match ty {
        ValueType::I32 => owned("i32"),
        ValueType::F32 => owned("float"),
        ValueType::Bool => owned("i1"),
        ValueType::Struct(name) => {
            let mut text = owned("%spk_struct_");
            push_str(&mut text, name.as_str());
            text
        },
        ValueType::Array { element, length } => match length {
            ArrayLength::Resolved(n) => {
                let mut text = owned("[");
                push_decimal(&mut text, *n as u64);
                push_str(&mut text, " x ");
                let inner = llvm_value_type(element);
                push_str(&mut text, inner.as_str());
                push_str(&mut text, "]");
                text
            },
            _ => String::new(),
        },
    }
}

/// The LLVM spelling of a return type.
pub fn llvm_return_type(ty: &ReturnType) -> (text: String)
    ensures
        text@ == match *ty {
            ReturnType::Value(v) => llvm_type_text(v),
            ReturnType::Void => "void"@,
        },
{
    match ty {
        ReturnType::Value(v) => llvm_value_type(v),
        ReturnType::Void => owned("void"),
    }
}

/// How generated code reports source locations: not at all, or through the development
/// runtime with the files of a source map.
#[derive(Clone, Copy)]
pub enum RuntimeDiagnostics<'a> {
    Plain,
    Located(&'a SourceMap),
}

/// The global constant that names source file `id` at `path`.
pub open spec fn source_constant(id: nat, path: Seq<u8>) -> Seq<char> {
    "@spk_source_"@ + decimal(id) + " = private unnamed_addr constant ["@ + decimal(path.len() + 1)
        + " x i8] c\""@ + bytes_text(path, |b: u8| escaped_byte(b)) + "\\00\"\n"@
}

/// The declarations for the first `n` files.
pub open spec fn source_constants(paths: Seq<Seq<u8>>, n: int) -> Seq<char>
    decreases n,
{
    if n <= 0 {
        seq![]
    } else {
        source_constants(paths, n - 1) + source_constant((n - 1) as nat, paths[n - 1])
    }
}

impl<'a> RuntimeDiagnostics<'a> {
    /// The declarations that reporting needs: the runtime's entry point and one byte-string
    /// constant per source file, each path byte escaped and NUL-terminated.
    pub fn declarations(self) -> (text: String)
        ensures
            match self {
                RuntimeDiagnostics::Plain => text@ == Seq::<char>::empty(),
                RuntimeDiagnostics::Located(sources) => text@ == "declare void @crumb_source_location(ptr, i32, i32)\n"@
                    + source_constants(
                    sources.files_view().map_values(|f: crate::source::SourceFile| encode_utf8(f.path_view())),
                    sources.files_view().len() as int,
                ),
            },
    {
        match self {
            RuntimeDiagnostics::Plain => String::new(),
            RuntimeDiagnostics::Located(sources) => {
                let ghost paths = sources.files_view().map_values(|f: crate::source::SourceFile| encode_utf8(f.path_view()));
                let mut output = owned("declare void @crumb_source_location(ptr, i32, i32)\n");
                let ghost head = output@;
                let files = sources.files();
                let mut id: usize = 0;
                while id < files.len()
                    invariant
                        id <= files@.len(),
                        files@ == sources.files_view(),
                        paths == sources.files_view().map_values(|f: crate::source::SourceFile| encode_utf8(f.path_view())),
                        output@ == head + source_constants(paths, id as int),
                    decreases files.len() - id,
                {
                    let path = files[id].path().as_bytes();
                    push_str(&mut output, "@spk_source_");
                    push_decimal(&mut output, id as u64);
                    push_str(&mut output, " = private unnamed_addr constant [");
                    push_successor(&mut output, path.len() as u64);
                    push_str(&mut output, " x i8] c\"");
                    let mut k: usize = 0;
                    let ghost before = output@;
                    while k < path.len()
                        invariant
                            k <= path@.len(),
                            output@ == before + bytes_text(path@.subrange(0, k as int), |b: u8| escaped_byte(b)),
                        decreases path.len() - k,
                    {
                        assert(path@.subrange(0, k + 1).drop_last() == path@.subrange(0, k as int));
                        push_escaped(&mut output, path[k]);
                        k += 1;
                    }
                    assert(path@.subrange(0, k as int) == path@);
                    push_str(&mut output, "\\00\"\n");
                    proof {
                        reveal_strlit("@spk_source_");
                        reveal_strlit(" = private unnamed_addr constant [");
                        reveal_strlit(" x i8] c\"");
                        reveal_strlit("\\00\"\n");
                        assert(paths[id as int] == path@);
                    }
                    assert(output@ =~= head + source_constants(paths, id + 1));
                    id += 1;
                }
                output
            },
        }
    }

    /// The call that reports `span`'s line and column, when reporting; the span's file must be
    /// one of the map's.
    pub fn instruction(self, span: Span) -> (call: Option<String>)
        requires
            self matches RuntimeDiagnostics::Located(sources) ==> span.source.0 < sources.files_view().len(),
        ensures
            match self {
                RuntimeDiagnostics::Plain => call is None,
                RuntimeDiagnostics::Located(sources) => call matches Some(text) && {
                    let file = sources.files_view()[span.source.0 as int];
                    let (line, column) = line_column(file.text_bytes(), span.start as int);
                    text@ == "call void @crumb_source_location(ptr @spk_source_"@ + decimal(span.source.0 as nat)
                        + ", i32 "@ + decimal(line) + ", i32 "@ + decimal(column) + ")"@
                },
            },
    {
        match self {
            RuntimeDiagnostics::Plain => None,
            RuntimeDiagnostics::Located(sources) => {
                let (_, line, column) = sources.location(span).unwrap();
                let mut text = owned("call void @crumb_source_location(ptr @spk_source_");
                push_decimal(&mut text, span.source.0 as u64);
                push_str(&mut text, ", i32 ");
                push_decimal(&mut text, line as u64);
                push_str(&mut text, ", i32 ");
                push_decimal(&mut text, column as u64);
                push_str(&mut text, ")");
                Some(text)
            },
        }
    }
}

} // verus!
