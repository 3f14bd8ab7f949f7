//! The functions and constants that every program can use without declaring them.
use vstd::prelude::*;

use crate::ast::{ReturnType, ValueType};
use crate::keyboard::{key_catalog, key_id, key_name, lemma_key_id_round_trip, Key, KEY_COUNT};
use crate::resolution::Resolution;
use crate::text::str_equal;

verus! {

/// A function that the runtime provides.
pub struct BuiltinFunction {
    pub name: &'static str,
    pub params: Vec<ValueType>,
    pub return_type: ReturnType,
    pub llvm_symbol: &'static str,
}

/// A name that every program sees with a fixed integer value.
#[derive(Clone, Copy, Debug, PartialEq, Eq)]
pub struct PredefinedConstant {
    pub name: &'static str,
    pub value: i32,
}

/// Number of runtime functions.
pub const BUILTIN_COUNT: usize = 19;

/// The name, parameter types, return type and LLVM symbol of the runtime function at `index`.
pub open spec fn builtin_signature(index: int) -> (Seq<char>, Seq<ValueType>, ReturnType, Seq<char>) {
    if index == 0 {
        ("load_i32"@, seq![ValueType::I32, ValueType::I32], ReturnType::Value(ValueType::I32), "@crumb_load_i32"@)
    } else if index == 1 {
        ("save_i32"@, seq![ValueType::I32, ValueType::I32], ReturnType::Value(ValueType::Bool), "@crumb_save_i32"@)
    } else if index == 2 {
        ("tone"@, seq![ValueType::F32, ValueType::F32, ValueType::F32], ReturnType::Void, "@crumb_tone"@)
    } else if index == 3 {
        ("noise"@, seq![ValueType::F32, ValueType::F32], ReturnType::Void, "@crumb_noise"@)
    } else if index == 4 {
        ("sound_play"@, seq![ValueType::I32, ValueType::F32], ReturnType::Void, "@crumb_sound_play"@)
    } else if index == 5 {
        ("sound_pause"@, seq![], ReturnType::Void, "@crumb_sound_pause"@)
    } else if index == 6 {
        ("sound_resume"@, seq![], ReturnType::Void, "@crumb_sound_resume"@)
    } else if index == 7 {
        ("sound_stop"@, seq![], ReturnType::Void, "@crumb_sound_stop"@)
    } else if index == 8 {
        ("sound_position"@, seq![], ReturnType::Value(ValueType::F32), "@crumb_sound_position"@)
    } else if index == 9 {
        ("sound_seek"@, seq![ValueType::F32], ReturnType::Void, "@crumb_sound_seek"@)
    } else if index == 10 {
        ("sin"@, seq![ValueType::F32], ReturnType::Value(ValueType::F32), "@crumb_sin"@)
    } else if index == 11 {
        ("print_i32"@, seq![ValueType::I32], ReturnType::Void, "@crumb_print_i32"@)
    } else if index == 12 {
        ("debug_frame"@, seq![ValueType::I32, ValueType::F32], ReturnType::Void, "@crumb_debug_frame"@)
    } else if index == 13 {
        ("clear_rgb"@, seq![ValueType::I32, ValueType::I32, ValueType::I32], ReturnType::Void, "@crumb_clear_rgb"@)
    } else if index == 14 {
        ("fill_rect"@, seq![ValueType::I32, ValueType::I32, ValueType::I32, ValueType::I32, ValueType::I32, ValueType::I32, ValueType::I32], ReturnType::Void, "@crumb_fill_rect"@)
    } else if index == 15 {
        ("key_down"@, seq![ValueType::I32], ReturnType::Value(ValueType::Bool), "@crumb_key_down"@)
    } else if index == 16 {
        ("key_pressed"@, seq![ValueType::I32], ReturnType::Value(ValueType::Bool), "@crumb_key_pressed"@)
    } else if index == 17 {
        ("key_released"@, seq![ValueType::I32], ReturnType::Value(ValueType::Bool), "@crumb_key_released"@)
    } else {
        ("quit"@, seq![], ReturnType::Void, "@crumb_request_quit"@)
    }
}

/// The runtime functions, in a fixed order.
pub fn functions() -> (table: Vec<BuiltinFunction>)
    ensures
        table@.len() == BUILTIN_COUNT,
        forall|i: int|
            0 <= i < BUILTIN_COUNT ==> ((#[trigger] table@[i]).name@, table@[i].params@,
                table@[i].return_type, table@[i].llvm_symbol@) == builtin_signature(i),
{
    let mut table: Vec<BuiltinFunction> = Vec::new();
    table.push(BuiltinFunction {
        name: "load_i32",
        params: vec![ValueType::I32, ValueType::I32],
        return_type: ReturnType::Value(ValueType::I32),
        llvm_symbol: "@crumb_load_i32",
    });
    assert(table@[0].params@ == builtin_signature(0).1);
    table.push(BuiltinFunction {
        name: "save_i32",
        params: vec![ValueType::I32, ValueType::I32],
        return_type: ReturnType::Value(ValueType::Bool),
        llvm_symbol: "@crumb_save_i32",
    });
    assert(table@[1].params@ == builtin_signature(1).1);
    table.push(BuiltinFunction {
        name: "tone",
        params: vec![ValueType::F32, ValueType::F32, ValueType::F32],
        return_type: ReturnType::Void,
        llvm_symbol: "@crumb_tone",
    });
    assert(table@[2].params@ == builtin_signature(2).1);
    table.push(BuiltinFunction {
        name: "noise",
        params: vec![ValueType::F32, ValueType::F32],
        return_type: ReturnType::Void,
        llvm_symbol: "@crumb_noise",
    });
    assert(table@[3].params@ == builtin_signature(3).1);
    table.push(BuiltinFunction {
        name: "sound_play",
        params: vec![ValueType::I32, ValueType::F32],
        return_type: ReturnType::Void,
        llvm_symbol: "@crumb_sound_play",
    });
    assert(table@[4].params@ == builtin_signature(4).1);
    table.push(BuiltinFunction {
        name: "sound_pause",
        params: Vec::new(),
        return_type: ReturnType::Void,
        llvm_symbol: "@crumb_sound_pause",
    });
    assert(table@[5].params@ == builtin_signature(5).1);
    table.push(BuiltinFunction {
        name: "sound_resume",
        params: Vec::new(),
        return_type: ReturnType::Void,
        llvm_symbol: "@crumb_sound_resume",
    });
    assert(table@[6].params@ == builtin_signature(6).1);
    table.push(BuiltinFunction {
        name: "sound_stop",
        params: Vec::new(),
        return_type: ReturnType::Void,
        llvm_symbol: "@crumb_sound_stop",
    });
    assert(table@[7].params@ == builtin_signature(7).1);
    table.push(BuiltinFunction {
        name: "sound_position",
        params: Vec::new(),
        return_type: ReturnType::Value(ValueType::F32),
        llvm_symbol: "@crumb_sound_position",
    });
    assert(table@[8].params@ == builtin_signature(8).1);
    table.push(BuiltinFunction {
        name: "sound_seek",
        params: vec![ValueType::F32],
        return_type: ReturnType::Void,
        llvm_symbol: "@crumb_sound_seek",
    });
    assert(table@[9].params@ == builtin_signature(9).1);
    table.push(BuiltinFunction {
        name: "sin",
        params: vec![ValueType::F32],
        return_type: ReturnType::Value(ValueType::F32),
        llvm_symbol: "@crumb_sin",
    });
    assert(table@[10].params@ == builtin_signature(10).1);
    table.push(BuiltinFunction {
        name: "print_i32",
        params: vec![ValueType::I32],
        return_type: ReturnType::Void,
        llvm_symbol: "@crumb_print_i32",
    });
    assert(table@[11].params@ == builtin_signature(11).1);
    table.push(BuiltinFunction {
        name: "debug_frame",
        params: vec![ValueType::I32, ValueType::F32],
        return_type: ReturnType::Void,
        llvm_symbol: "@crumb_debug_frame",
    });
    assert(table@[12].params@ == builtin_signature(12).1);
    table.push(BuiltinFunction {
        name: "clear_rgb",
        params: vec![ValueType::I32, ValueType::I32, ValueType::I32],
        return_type: ReturnType::Void,
        llvm_symbol: "@crumb_clear_rgb",
    });
    assert(table@[13].params@ == builtin_signature(13).1);
    table.push(BuiltinFunction {
        name: "fill_rect",
        params: vec![ValueType::I32, ValueType::I32, ValueType::I32, ValueType::I32, ValueType::I32, ValueType::I32, ValueType::I32],
        return_type: ReturnType::Void,
        llvm_symbol: "@crumb_fill_rect",
    });
    assert(table@[14].params@ == builtin_signature(14).1);
    table.push(BuiltinFunction {
        name: "key_down",
        params: vec![ValueType::I32],
        return_type: ReturnType::Value(ValueType::Bool),
        llvm_symbol: "@crumb_key_down",
    });
    assert(table@[15].params@ == builtin_signature(15).1);
    table.push(BuiltinFunction {
        name: "key_pressed",
        params: vec![ValueType::I32],
        return_type: ReturnType::Value(ValueType::Bool),
        llvm_symbol: "@crumb_key_pressed",
    });
    assert(table@[16].params@ == builtin_signature(16).1);
    table.push(BuiltinFunction {
        name: "key_released",
        params: vec![ValueType::I32],
        return_type: ReturnType::Value(ValueType::Bool),
        llvm_symbol: "@crumb_key_released",
    });
    assert(table@[17].params@ == builtin_signature(17).1);
    table.push(BuiltinFunction {
        name: "quit",
        params: Vec::new(),
        return_type: ReturnType::Void,
        llvm_symbol: "@crumb_request_quit",
    });
    assert(table@[18].params@ == builtin_signature(18).1);
    table
}

/// The key whose identifier is `index`.
pub open spec fn catalog_key(index: int) -> Key {
    crate::keyboard::key_of_id(index as u8)->Some_0
}

/// Whether `name` is one of the names every program sees as a constant: a key name or a
/// framebuffer dimension.
pub open spec fn predefined_name(name: Seq<char>) -> bool {
    (exists|key: Key| key_name(key) == name) || name == "FRAMEBUFFER_WIDTH"@ || name
        == "FRAMEBUFFER_HEIGHT"@
}

/// All predefined values for one game's logical framebuffer: each key's identifier under its
/// name, in catalog order, then the width and the height.
pub fn constants(resolution: Resolution) -> (constants: Vec<PredefinedConstant>)
    ensures
        constants@.len() == KEY_COUNT + 2,
        forall|i: int|
            0 <= i < KEY_COUNT ==> (#[trigger] constants@[i]).name@ == key_name(catalog_key(i))
                && constants@[i].value == i,
        constants@[KEY_COUNT as int].name@ == "FRAMEBUFFER_WIDTH"@,
        constants@[KEY_COUNT as int].value == resolution@.0,
        constants@[KEY_COUNT + 1].name@ == "FRAMEBUFFER_HEIGHT"@,
        constants@[KEY_COUNT + 1].value == resolution@.1,
{
    let keys = key_catalog();
    let mut constants: Vec<PredefinedConstant> = Vec::new();
    let mut i: usize = 0;
    while i < keys.len()
        invariant
            keys@.len() == KEY_COUNT,
            forall|j: int| 0 <= j < KEY_COUNT ==> crate::keyboard::key_of_id(j as u8) == Some(#[trigger] keys@[j].key),
            forall|j: int| 0 <= j < KEY_COUNT ==> (#[trigger] keys@[j]).name@ == key_name(keys@[j].key),
            i <= keys@.len(),
            constants@.len() == i,
            forall|j: int|
                0 <= j < i ==> (#[trigger] constants@[j]).name@ == key_name(catalog_key(j))
                    && constants@[j].value == j,
        decreases keys.len() - i,
    {
        let info = keys[i];
        proof {
            assert(crate::keyboard::key_of_id(i as u8) == Some(keys@[i as int].key));
        }
        constants.push(PredefinedConstant { name: info.name, value: i as i32 });
        i += 1;
    }
    constants.push(PredefinedConstant { name: "FRAMEBUFFER_WIDTH", value: resolution.width() as i32 });
    constants.push(PredefinedConstant { name: "FRAMEBUFFER_HEIGHT", value: resolution.height() as i32 });
    constants
}

/// Whether a program sees `name` as a predefined constant.
pub fn is_predefined_constant(name: &str) -> (predefined: bool)
    ensures
        predefined == predefined_name(name@),
{
    let constants = constants(Resolution::default());
    let mut i: usize = 0;
    while i < constants.len()
        invariant
            constants@.len() == KEY_COUNT + 2,
            forall|j: int|
                0 <= j < KEY_COUNT ==> (#[trigger] constants@[j]).name@ == key_name(catalog_key(j))
                    && constants@[j].value == j,
            constants@[KEY_COUNT as int].name@ == "FRAMEBUFFER_WIDTH"@,
            constants@[KEY_COUNT + 1].name@ == "FRAMEBUFFER_HEIGHT"@,
            i <= constants@.len(),
            forall|j: int| 0 <= j < i ==> (#[trigger] constants@[j]).name@ != name@,
        decreases constants.len() - i,
    {
        if str_equal(constants[i].name, name) {
            proof {
                if i < KEY_COUNT {
                    assert(key_name(catalog_key(i as int)) == name@);
                }
            }
            return true;
        }
        i += 1;
    }
    proof {
        assert(constants@[KEY_COUNT as int].name@ != name@);
        assert(constants@[KEY_COUNT + 1].name@ != name@);
        assert forall|key: Key| key_name(key) != name@ by {
            lemma_key_id_round_trip(key);
            let j = key_id(key) as int;
            assert(catalog_key(j) == key);
            assert(constants@[j].name@ != name@);
        }
    }
    false
}

} // verus!
