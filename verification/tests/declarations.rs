use speck::ast::{ArrayLength, ReturnType, ValueType};
use speck::builtins::{constants, functions, is_predefined_constant, BUILTIN_COUNT};
use speck::diagnostic::Span;
use speck::keyboard::{key_catalog, Key, KEY_COUNT};
use speck::resolution::Resolution;

fn array(element: ValueType, length: ArrayLength) -> ValueType {
    ValueType::Array { element: Box::new(element), length }
}

#[test]
fn value_types_print_as_written() {
    assert_eq!(ValueType::I32.name(), "i32");
    assert_eq!(ValueType::Struct("Point".into()).name(), "Point");
    let grid = array(
        array(ValueType::F32, ArrayLength::Resolved(3)),
        ArrayLength::Constant { name: "ROWS".into(), span: Span::new(4, 8) },
    );
    assert_eq!(grid.name(), "[[f32; 3]; ROWS]");
    assert_eq!(array(ValueType::Bool, ArrayLength::Literal { value: -2, span: Span::new(0, 2) }).name(), "[bool; -2]");
    assert_eq!(array(ValueType::Bool, ArrayLength::Invalid).name(), "[bool; <invalid>]");
    assert_eq!(ReturnType::Void.name(), "void");
    assert_eq!(ReturnType::Value(ValueType::F32).name(), "f32");
}

#[test]
fn value_type_queries() {
    assert!(ValueType::I32.is_numeric());
    assert!(!ValueType::Bool.is_numeric());
    let resolved = array(ValueType::I32, ArrayLength::Resolved(4));
    assert_eq!(resolved.resolved_array(), Some((&ValueType::I32, 4)));
    assert_eq!(ValueType::I32.resolved_array(), None);
    let nested = array(array(ValueType::Struct("S".into()), ArrayLength::Invalid), ArrayLength::Resolved(2));
    assert!(nested.has_invalid_array_length());
    assert!(!resolved.has_invalid_array_length());
    assert_eq!(nested.struct_name(), Some("S"));
    assert_eq!(resolved.struct_name(), None);
    assert_eq!(ArrayLength::Literal { value: 3, span: Span::new(1, 2) }.span(), Some(Span::new(1, 2)));
    assert_eq!(ArrayLength::Resolved(3).span(), None);
    assert_eq!(ReturnType::Value(ValueType::Bool).value_type(), Some(&ValueType::Bool));
    assert_eq!(ReturnType::Void.value_type(), None);
}

#[test]
fn keys_round_trip_through_ids_and_browser_codes() {
    let catalog = key_catalog();
    assert_eq!(catalog.len(), KEY_COUNT);
    for (index, info) in catalog.iter().enumerate() {
        assert_eq!(info.key.id() as usize, index);
        assert_eq!(Key::from_id(index as u8), Some(info.key));
        assert_eq!(Key::from_browser_code(info.browser_code), Some(info.key));
    }
    assert_eq!(Key::from_id(KEY_COUNT as u8), None);
    assert_eq!(Key::from_browser_code("KeyQ"), None);
    assert_eq!(Key::from_browser_code("ArrowUp"), Some(Key::Up));
    assert_eq!(catalog[10].name, "KEY_ESCAPE");
}

#[test]
fn runtime_functions_have_fixed_signatures() {
    let table = functions();
    assert_eq!(table.len(), BUILTIN_COUNT);
    let fill = table.iter().find(|f| f.name == "fill_rect").unwrap();
    assert_eq!(fill.params.len(), 7);
    assert_eq!(fill.llvm_symbol, "@crumb_fill_rect");
    let quit = table.iter().find(|f| f.name == "quit").unwrap();
    assert_eq!(quit.llvm_symbol, "@crumb_request_quit");
    assert_eq!(quit.return_type, ReturnType::Void);
    let load = &table[0];
    assert_eq!(load.name, "load_i32");
    assert_eq!(load.return_type, ReturnType::Value(ValueType::I32));
}

#[test]
fn predefined_constants_are_keys_then_dimensions() {
    let values = constants(Resolution::new(64, 48).unwrap());
    assert_eq!(values.len(), KEY_COUNT + 2);
    assert_eq!((values[0].name, values[0].value), ("KEY_W", 0));
    assert_eq!((values[4].name, values[4].value), ("KEY_UP", 4));
    assert_eq!((values[KEY_COUNT].name, values[KEY_COUNT].value), ("FRAMEBUFFER_WIDTH", 64));
    assert_eq!((values[KEY_COUNT + 1].name, values[KEY_COUNT + 1].value), ("FRAMEBUFFER_HEIGHT", 48));
    assert!(is_predefined_constant("KEY_SPACE"));
    assert!(is_predefined_constant("FRAMEBUFFER_HEIGHT"));
    assert!(!is_predefined_constant("KEY_Q"));
    assert!(!is_predefined_constant("key_w"));
}
