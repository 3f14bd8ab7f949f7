use speck::ast::{ArrayLength, ReturnType, ValueType};
use speck::codegen::{llvm_byte_string, llvm_return_type, llvm_value_type, RuntimeDiagnostics};
use speck::diagnostic::Span;
use speck::source::{SourceId, SourceMap};

#[test]
fn byte_strings_escape_quotes_backslashes_and_controls() {
    assert_eq!(llvm_byte_string(b"Dot"), "c\"Dot\"");
    assert_eq!(llvm_byte_string(b"a\"b\\c\n\0"), "c\"a\\22b\\5Cc\\0A\\00\"");
    assert_eq!(llvm_byte_string(&[0x7f, 0xff, b' ', b'~']), "c\"\\7F\\FF ~\"");
    assert_eq!(llvm_byte_string(&[]), "c\"\"");
}

#[test]
fn value_types_have_llvm_spellings() {
    assert_eq!(llvm_value_type(&ValueType::I32), "i32");
    assert_eq!(llvm_value_type(&ValueType::F32), "float");
    assert_eq!(llvm_value_type(&ValueType::Bool), "i1");
    assert_eq!(llvm_value_type(&ValueType::Struct("Point".into())), "%spk_struct_Point");
    let grid = ValueType::Array {
        element: Box::new(ValueType::Array { element: Box::new(ValueType::I32), length: ArrayLength::Resolved(3) }),
        length: ArrayLength::Resolved(2),
    };
    assert_eq!(llvm_value_type(&grid), "[2 x [3 x i32]]");
    assert_eq!(llvm_return_type(&ReturnType::Void), "void");
    assert_eq!(llvm_return_type(&ReturnType::Value(ValueType::Bool)), "i1");
}

#[test]
fn development_builds_report_source_locations() {
    let mut sources = SourceMap::new();
    sources.add("a\"b.spk".to_string(), "game \"G\"\n  start {}".to_string());
    assert_eq!(RuntimeDiagnostics::Plain.declarations(), "");
    assert_eq!(RuntimeDiagnostics::Plain.instruction(Span::new(0, 1)), None);
    let located = RuntimeDiagnostics::Located(&sources);
    assert_eq!(
        located.declarations(),
        "declare void @crumb_source_location(ptr, i32, i32)\n@spk_source_0 = private unnamed_addr constant [8 x i8] c\"\\61\\22\\62\\2E\\73\\70\\6B\\00\"\n"
    );
    let span = Span { source: SourceId(0), start: 11, end: 16 };
    assert_eq!(
        located.instruction(span),
        Some("call void @crumb_source_location(ptr @spk_source_0, i32 2, i32 3)".to_string())
    );
}
