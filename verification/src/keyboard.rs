//! Physical keyboard identifiers shared by the compiler, browser, and native runtime.
use vstd::prelude::*;

use crate::text::bytes_equal;
use vstd::string::StringSliceAdditionalSpecFns;

verus! {

/// One supported physical key. Identifiers are contiguous from zero in catalog order.
#[derive(Clone, Copy, Debug, PartialEq, Eq, Structural)]
pub enum Key {
    W,
    A,
    S,
    D,
    Up,
    Down,
    Left,
    Right,
    Space,
    Enter,
    Escape,
}

/// One supported physical key and its platform mappings.
#[derive(Clone, Copy, Debug, PartialEq, Eq)]
pub struct KeyInfo {
    pub key: Key,
    pub name: &'static str,
    pub browser_code: &'static str,
    /// `None` for keys without a documented macOS virtual key code.
    pub macos_code: Option<u16>,
    /// A sided macOS modifier mask, or zero for a regular key.
    pub modifier_mask: u32,
}

/// Number of keys in the catalog.
pub const KEY_COUNT: usize = 11;

/// The stable one-byte identifier of a key.
pub open spec fn key_id(key: Key) -> u8 {
    match key {
        Key::W => 0u8,
        Key::A => 1u8,
        Key::S => 2u8,
        Key::D => 3u8,
        Key::Up => 4u8,
        Key::Down => 5u8,
        Key::Left => 6u8,
        Key::Right => 7u8,
        Key::Space => 8u8,
        Key::Enter => 9u8,
        Key::Escape => 10u8,
    }
}

/// The key with a given identifier, if any.
pub open spec fn key_of_id(id: u8) -> Option<Key> {
    if id == 0 {
        Some(Key::W)
    } else if id == 1 {
        Some(Key::A)
    } else if id == 2 {
        Some(Key::S)
    } else if id == 3 {
        Some(Key::D)
    } else if id == 4 {
        Some(Key::Up)
    } else if id == 5 {
        Some(Key::Down)
    } else if id == 6 {
        Some(Key::Left)
    } else if id == 7 {
        Some(Key::Right)
    } else if id == 8 {
        Some(Key::Space)
    } else if id == 9 {
        Some(Key::Enter)
    } else if id == 10 {
        Some(Key::Escape)
    } else {
        None
    }
}

/// The UTF-8 bytes of a key's browser `KeyboardEvent.code`.
pub open spec fn browser_code_bytes(key: Key) -> Seq<u8> {
    match key {
        Key::W => seq![0x4Bu8, 0x65u8, 0x79u8, 0x57u8],
        Key::A => seq![0x4Bu8, 0x65u8, 0x79u8, 0x41u8],
        Key::S => seq![0x4Bu8, 0x65u8, 0x79u8, 0x53u8],
        Key::D => seq![0x4Bu8, 0x65u8, 0x79u8, 0x44u8],
        Key::Up => seq![0x41u8, 0x72u8, 0x72u8, 0x6Fu8, 0x77u8, 0x55u8, 0x70u8],
        Key::Down => seq![0x41u8, 0x72u8, 0x72u8, 0x6Fu8, 0x77u8, 0x44u8, 0x6Fu8, 0x77u8, 0x6Eu8],
        Key::Left => seq![0x41u8, 0x72u8, 0x72u8, 0x6Fu8, 0x77u8, 0x4Cu8, 0x65u8, 0x66u8, 0x74u8],
        Key::Right => seq![0x41u8, 0x72u8, 0x72u8, 0x6Fu8, 0x77u8, 0x52u8, 0x69u8, 0x67u8, 0x68u8, 0x74u8],
        Key::Space => seq![0x53u8, 0x70u8, 0x61u8, 0x63u8, 0x65u8],
        Key::Enter => seq![0x45u8, 0x6Eu8, 0x74u8, 0x65u8, 0x72u8],
        Key::Escape => seq![0x45u8, 0x73u8, 0x63u8, 0x61u8, 0x70u8, 0x65u8],
    }
}

/// The key whose browser code has exactly these bytes, if any.
pub open spec fn key_of_browser_code(code: Seq<u8>) -> Option<Key> {
    if code == browser_code_bytes(Key::W) {
        Some(Key::W)
    } else if code == browser_code_bytes(Key::A) {
        Some(Key::A)
    } else if code == browser_code_bytes(Key::S) {
        Some(Key::S)
    } else if code == browser_code_bytes(Key::D) {
        Some(Key::D)
    } else if code == browser_code_bytes(Key::Up) {
        Some(Key::Up)
    } else if code == browser_code_bytes(Key::Down) {
        Some(Key::Down)
    } else if code == browser_code_bytes(Key::Left) {
        Some(Key::Left)
    } else if code == browser_code_bytes(Key::Right) {
        Some(Key::Right)
    } else if code == browser_code_bytes(Key::Space) {
        Some(Key::Space)
    } else if code == browser_code_bytes(Key::Enter) {
        Some(Key::Enter)
    } else if code == browser_code_bytes(Key::Escape) {
        Some(Key::Escape)
    } else {
        None
    }
}

/// The name under which programs see a key's identifier.
pub open spec fn key_name(key: Key) -> Seq<char> {
    match key {
        Key::W => "KEY_W"@,
        Key::A => "KEY_A"@,
        Key::S => "KEY_S"@,
        Key::D => "KEY_D"@,
        Key::Up => "KEY_UP"@,
        Key::Down => "KEY_DOWN"@,
        Key::Left => "KEY_LEFT"@,
        Key::Right => "KEY_RIGHT"@,
        Key::Space => "KEY_SPACE"@,
        Key::Enter => "KEY_ENTER"@,
        Key::Escape => "KEY_ESCAPE"@,
    }
}

/// The macOS virtual key code of a key.
pub open spec fn macos_code(key: Key) -> u16 {
    match key {
        Key::W => 13u16,
        Key::A => 0u16,
        Key::S => 1u16,
        Key::D => 2u16,
        Key::Up => 126u16,
        Key::Down => 125u16,
        Key::Left => 123u16,
        Key::Right => 124u16,
        Key::Space => 49u16,
        Key::Enter => 36u16,
        Key::Escape => 53u16,
    }
}

/// Identifiers and keys are in one-to-one correspondence.
pub proof fn lemma_key_id_round_trip(key: Key)
    ensures
        key_of_id(key_id(key)) == Some(key),
        key_id(key) < KEY_COUNT,
{
}

/// Browser codes identify keys uniquely.
pub proof fn lemma_browser_code_round_trip(key: Key)
    ensures
        key_of_browser_code(browser_code_bytes(key)) == Some(key),
{
}

impl Key {
    /// The stable one-byte identifier of this key.
    pub fn id(self) -> (id: u8)
        ensures
            id == key_id(self),
    {
        match self {
            Key::W => 0,
            Key::A => 1,
            Key::S => 2,
            Key::D => 3,
            Key::Up => 4,
            Key::Down => 5,
            Key::Left => 6,
            Key::Right => 7,
            Key::Space => 8,
            Key::Enter => 9,
            Key::Escape => 10,
        }
    }

    pub fn from_id(id: u8) -> (key: Option<Key>)
        ensures
            key == key_of_id(id),
    {
        match id {
            0 => Some(Key::W),
            1 => Some(Key::A),
            2 => Some(Key::S),
            3 => Some(Key::D),
            4 => Some(Key::Up),
            5 => Some(Key::Down),
            6 => Some(Key::Left),
            7 => Some(Key::Right),
            8 => Some(Key::Space),
            9 => Some(Key::Enter),
            10 => Some(Key::Escape),
            _ => None,
        }
    }

    pub fn from_browser_code(code: &str) -> (key: Option<Key>)
        ensures
            key == key_of_browser_code(code.spec_bytes()),
    {
        Self::from_code_bytes(code.as_bytes())
    }

    /// The key whose browser code has exactly the given bytes.
    pub fn from_code_bytes(code: &[u8]) -> (key: Option<Key>)
        ensures
            key == key_of_browser_code(code@),
    {
        let candidate: [u8; 4] = [0x4Bu8, 0x65u8, 0x79u8, 0x57u8];
        if bytes_equal(code, &candidate) {
            return Some(Key::W);
        }
        let candidate: [u8; 4] = [0x4Bu8, 0x65u8, 0x79u8, 0x41u8];
        if bytes_equal(code, &candidate) {
            return Some(Key::A);
        }
        let candidate: [u8; 4] = [0x4Bu8, 0x65u8, 0x79u8, 0x53u8];
        if bytes_equal(code, &candidate) {
            return Some(Key::S);
        }
        let candidate: [u8; 4] = [0x4Bu8, 0x65u8, 0x79u8, 0x44u8];
        if bytes_equal(code, &candidate) {
            return Some(Key::D);
        }
        let candidate: [u8; 7] = [0x41u8, 0x72u8, 0x72u8, 0x6Fu8, 0x77u8, 0x55u8, 0x70u8];
        if bytes_equal(code, &candidate) {
            return Some(Key::Up);
        }
        let candidate: [u8; 9] = [0x41u8, 0x72u8, 0x72u8, 0x6Fu8, 0x77u8, 0x44u8, 0x6Fu8, 0x77u8, 0x6Eu8];
        if bytes_equal(code, &candidate) {
            return Some(Key::Down);
        }
        let candidate: [u8; 9] = [0x41u8, 0x72u8, 0x72u8, 0x6Fu8, 0x77u8, 0x4Cu8, 0x65u8, 0x66u8, 0x74u8];
        if bytes_equal(code, &candidate) {
            return Some(Key::Left);
        }
        let candidate: [u8; 10] = [0x41u8, 0x72u8, 0x72u8, 0x6Fu8, 0x77u8, 0x52u8, 0x69u8, 0x67u8, 0x68u8, 0x74u8];
        if bytes_equal(code, &candidate) {
            return Some(Key::Right);
        }
        let candidate: [u8; 5] = [0x53u8, 0x70u8, 0x61u8, 0x63u8, 0x65u8];
        if bytes_equal(code, &candidate) {
            return Some(Key::Space);
        }
        let candidate: [u8; 5] = [0x45u8, 0x6Eu8, 0x74u8, 0x65u8, 0x72u8];
        if bytes_equal(code, &candidate) {
            return Some(Key::Enter);
        }
        let candidate: [u8; 6] = [0x45u8, 0x73u8, 0x63u8, 0x61u8, 0x70u8, 0x65u8];
        if bytes_equal(code, &candidate) {
            return Some(Key::Escape);
        }
        None
    }
}

/// The catalog of supported keys, in identifier order.
pub fn key_catalog() -> (keys: Vec<KeyInfo>)
    ensures
        keys@.len() == KEY_COUNT,
        forall|i: int| 0 <= i < KEY_COUNT ==> key_of_id(i as u8) == Some(#[trigger] keys@[i].key),
        forall|i: int| 0 <= i < KEY_COUNT ==> (#[trigger] keys@[i]).macos_code == Some(macos_code(keys@[i].key)),
        forall|i: int| 0 <= i < KEY_COUNT ==> (#[trigger] keys@[i]).modifier_mask == 0,
        forall|i: int| 0 <= i < KEY_COUNT ==> (#[trigger] keys@[i]).name@ == key_name(keys@[i].key),
{
    let mut keys: Vec<KeyInfo> = Vec::new();
    keys.push(KeyInfo { key: Key::W, name: "KEY_W", browser_code: "KeyW", macos_code: Some(13), modifier_mask: 0 });
    keys.push(KeyInfo { key: Key::A, name: "KEY_A", browser_code: "KeyA", macos_code: Some(0), modifier_mask: 0 });
    keys.push(KeyInfo { key: Key::S, name: "KEY_S", browser_code: "KeyS", macos_code: Some(1), modifier_mask: 0 });
    keys.push(KeyInfo { key: Key::D, name: "KEY_D", browser_code: "KeyD", macos_code: Some(2), modifier_mask: 0 });
    keys.push(KeyInfo { key: Key::Up, name: "KEY_UP", browser_code: "ArrowUp", macos_code: Some(126), modifier_mask: 0 });
    keys.push(KeyInfo { key: Key::Down, name: "KEY_DOWN", browser_code: "ArrowDown", macos_code: Some(125), modifier_mask: 0 });
    keys.push(KeyInfo { key: Key::Left, name: "KEY_LEFT", browser_code: "ArrowLeft", macos_code: Some(123), modifier_mask: 0 });
    keys.push(KeyInfo { key: Key::Right, name: "KEY_RIGHT", browser_code: "ArrowRight", macos_code: Some(124), modifier_mask: 0 });
    keys.push(KeyInfo { key: Key::Space, name: "KEY_SPACE", browser_code: "Space", macos_code: Some(49), modifier_mask: 0 });
    keys.push(KeyInfo { key: Key::Enter, name: "KEY_ENTER", browser_code: "Enter", macos_code: Some(36), modifier_mask: 0 });
    keys.push(KeyInfo { key: Key::Escape, name: "KEY_ESCAPE", browser_code: "Escape", macos_code: Some(53), modifier_mask: 0 });
    keys
}

} // verus!
