//! Key bindings: the keys the game reads, their names, the two built-in
//! layouts and custom bindings of one key per lane.

use vstd::prelude::*;
use crate::bms::{Lane, lane_at, lane_from_index};
use crate::text::{chars_of, push_char, find_char, find_char_range, string_of, trim_chars, trim_range, is_ws, trim_start_chars, trim_end_chars};
use vstd::string::StringExecFns;
use crate::ui::{KeyPreset, lane_to_name, name_to_lane, lane_name, lane_named};

verus! {

/// Physical keys, by their position on a US keyboard.
#[derive(Debug, Clone, Copy, PartialEq, Eq, Structural, Hash)]
pub enum KeyCode {
    KeyA,
    KeyB,
    KeyC,
    KeyD,
    KeyE,
    KeyF,
    KeyG,
    KeyH,
    KeyI,
    KeyJ,
    KeyK,
    KeyL,
    KeyM,
    KeyN,
    KeyO,
    KeyP,
    KeyQ,
    KeyR,
    KeyS,
    KeyT,
    KeyU,
    KeyV,
    KeyW,
    KeyX,
    KeyY,
    KeyZ,
    Digit0,
    Digit1,
    Digit2,
    Digit3,
    Digit4,
    Digit5,
    Digit6,
    Digit7,
    Digit8,
    Digit9,
    Space,
    ShiftLeft,
    ShiftRight,
    ControlLeft,
    ControlRight,
    AltLeft,
    AltRight,
    Tab,
    Enter,
    Escape,
    Backspace,
    CapsLock,
    Semicolon,
    Quote,
    Comma,
    Period,
    Slash,
    Backslash,
    BracketLeft,
    BracketRight,
    Minus,
    Equal,
    Backquote,
    ArrowLeft,
    ArrowRight,
    ArrowUp,
    ArrowDown,
    Numpad0,
    Numpad1,
    Numpad2,
    Numpad3,
    Numpad4,
    Numpad5,
    Numpad6,
    Numpad7,
    Numpad8,
    Numpad9,
    NumpadEnter,
    NumpadAdd,
    NumpadSubtract,
    NumpadMultiply,
    NumpadDivide,
    NumpadDecimal,
    F1,
    F2,
    F3,
    F4,
    F5,
    F6,
    F7,
    F8,
    F9,
    F10,
    F11,
    F12,
    PageUp,
    PageDown,
    Home,
    End,
    Delete,
    /// Any other key, by a number the platform layer gives it.
    Other(u32),
}

/// A key event's key: a known code, or a key the platform could not identify.
#[derive(Debug, Clone, Copy, PartialEq, Eq, Structural)]
pub enum PhysicalKey {
    Code(KeyCode),
    Unidentified,
}

/// Number of named keys.
pub const NAMED_KEYS: u32 = 79;

/// The short label a key is shown with.
pub open spec fn key_display(k: KeyCode) -> &'static str {
    match k {
        KeyCode::KeyA => "A",
        KeyCode::KeyB => "B",
        KeyCode::KeyC => "C",
        KeyCode::KeyD => "D",
        KeyCode::KeyE => "E",
        KeyCode::KeyF => "F",
        KeyCode::KeyG => "G",
        KeyCode::KeyH => "H",
        KeyCode::KeyI => "I",
        KeyCode::KeyJ => "J",
        KeyCode::KeyK => "K",
        KeyCode::KeyL => "L",
        KeyCode::KeyM => "M",
        KeyCode::KeyN => "N",
        KeyCode::KeyO => "O",
        KeyCode::KeyP => "P",
        KeyCode::KeyQ => "Q",
        KeyCode::KeyR => "R",
        KeyCode::KeyS => "S",
        KeyCode::KeyT => "T",
        KeyCode::KeyU => "U",
        KeyCode::KeyV => "V",
        KeyCode::KeyW => "W",
        KeyCode::KeyX => "X",
        KeyCode::KeyY => "Y",
        KeyCode::KeyZ => "Z",
        KeyCode::Digit0 => "0",
        KeyCode::Digit1 => "1",
        KeyCode::Digit2 => "2",
        KeyCode::Digit3 => "3",
        KeyCode::Digit4 => "4",
        KeyCode::Digit5 => "5",
        KeyCode::Digit6 => "6",
        KeyCode::Digit7 => "7",
        KeyCode::Digit8 => "8",
        KeyCode::Digit9 => "9",
        KeyCode::Space => "Space",
        KeyCode::ShiftLeft => "LShift",
        KeyCode::ShiftRight => "RShift",
        KeyCode::ControlLeft => "LCtrl",
        KeyCode::ControlRight => "RCtrl",
        KeyCode::AltLeft => "LAlt",
        KeyCode::AltRight => "RAlt",
        KeyCode::Tab => "Tab",
        KeyCode::Enter => "Enter",
        KeyCode::Escape => "Esc",
        KeyCode::Backspace => "Backspace",
        KeyCode::CapsLock => "Caps",
        KeyCode::Semicolon => ";",
        KeyCode::Quote => "'",
        KeyCode::Comma => ",",
        KeyCode::Period => ".",
        KeyCode::Slash => "/",
        KeyCode::Backslash => "\\\\",
        KeyCode::BracketLeft => "[",
        KeyCode::BracketRight => "]",
        KeyCode::Minus => "-",
        KeyCode::Equal => "=",
        KeyCode::Backquote => "`",
        KeyCode::ArrowLeft => "Left",
        KeyCode::ArrowRight => "Right",
        KeyCode::ArrowUp => "Up",
        KeyCode::ArrowDown => "Down",
        KeyCode::Numpad0 => "Num0",
        KeyCode::Numpad1 => "Num1",
        KeyCode::Numpad2 => "Num2",
        KeyCode::Numpad3 => "Num3",
        KeyCode::Numpad4 => "Num4",
        KeyCode::Numpad5 => "Num5",
        KeyCode::Numpad6 => "Num6",
        KeyCode::Numpad7 => "Num7",
        KeyCode::Numpad8 => "Num8",
        KeyCode::Numpad9 => "Num9",
        KeyCode::NumpadEnter => "NumEnter",
        KeyCode::NumpadAdd => "Num+",
        KeyCode::NumpadSubtract => "Num-",
        KeyCode::NumpadMultiply => "Num*",
        KeyCode::NumpadDivide => "Num/",
        KeyCode::NumpadDecimal => "Num.",
        _ => "Key",
    }
}

/// The identifier a key is stored under.
pub open spec fn key_ident(k: KeyCode) -> &'static str {
    match k {
        KeyCode::KeyA => "KeyA",
        KeyCode::KeyB => "KeyB",
        KeyCode::KeyC => "KeyC",
        KeyCode::KeyD => "KeyD",
        KeyCode::KeyE => "KeyE",
        KeyCode::KeyF => "KeyF",
        KeyCode::KeyG => "KeyG",
        KeyCode::KeyH => "KeyH",
        KeyCode::KeyI => "KeyI",
        KeyCode::KeyJ => "KeyJ",
        KeyCode::KeyK => "KeyK",
        KeyCode::KeyL => "KeyL",
        KeyCode::KeyM => "KeyM",
        KeyCode::KeyN => "KeyN",
        KeyCode::KeyO => "KeyO",
        KeyCode::KeyP => "KeyP",
        KeyCode::KeyQ => "KeyQ",
        KeyCode::KeyR => "KeyR",
        KeyCode::KeyS => "KeyS",
        KeyCode::KeyT => "KeyT",
        KeyCode::KeyU => "KeyU",
        KeyCode::KeyV => "KeyV",
        KeyCode::KeyW => "KeyW",
        KeyCode::KeyX => "KeyX",
        KeyCode::KeyY => "KeyY",
        KeyCode::KeyZ => "KeyZ",
        KeyCode::Digit0 => "Digit0",
        KeyCode::Digit1 => "Digit1",
        KeyCode::Digit2 => "Digit2",
        KeyCode::Digit3 => "Digit3",
        KeyCode::Digit4 => "Digit4",
        KeyCode::Digit5 => "Digit5",
        KeyCode::Digit6 => "Digit6",
        KeyCode::Digit7 => "Digit7",
        KeyCode::Digit8 => "Digit8",
        KeyCode::Digit9 => "Digit9",
        KeyCode::Space => "Space",
        KeyCode::ShiftLeft => "ShiftLeft",
        KeyCode::ShiftRight => "ShiftRight",
        KeyCode::ControlLeft => "ControlLeft",
        KeyCode::ControlRight => "ControlRight",
        KeyCode::AltLeft => "AltLeft",
        KeyCode::AltRight => "AltRight",
        KeyCode::Tab => "Tab",
        KeyCode::Enter => "Enter",
        KeyCode::Escape => "Escape",
        KeyCode::Backspace => "Backspace",
        KeyCode::CapsLock => "CapsLock",
        KeyCode::Semicolon => "Semicolon",
        KeyCode::Quote => "Quote",
        KeyCode::Comma => "Comma",
        KeyCode::Period => "Period",
        KeyCode::Slash => "Slash",
        KeyCode::Backslash => "Backslash",
        KeyCode::BracketLeft => "BracketLeft",
        KeyCode::BracketRight => "BracketRight",
        KeyCode::Minus => "Minus",
        KeyCode::Equal => "Equal",
        KeyCode::Backquote => "Backquote",
        KeyCode::ArrowLeft => "ArrowLeft",
        KeyCode::ArrowRight => "ArrowRight",
        KeyCode::ArrowUp => "ArrowUp",
        KeyCode::ArrowDown => "ArrowDown",
        KeyCode::Numpad0 => "Numpad0",
        KeyCode::Numpad1 => "Numpad1",
        KeyCode::Numpad2 => "Numpad2",
        KeyCode::Numpad3 => "Numpad3",
        KeyCode::Numpad4 => "Numpad4",
        KeyCode::Numpad5 => "Numpad5",
        KeyCode::Numpad6 => "Numpad6",
        KeyCode::Numpad7 => "Numpad7",
        KeyCode::Numpad8 => "Numpad8",
        KeyCode::Numpad9 => "Numpad9",
        KeyCode::NumpadEnter => "NumpadEnter",
        KeyCode::NumpadAdd => "NumpadAdd",
        KeyCode::NumpadSubtract => "NumpadSubtract",
        KeyCode::NumpadMultiply => "NumpadMultiply",
        KeyCode::NumpadDivide => "NumpadDivide",
        KeyCode::NumpadDecimal => "NumpadDecimal",
        _ => "Unknown",
    }
}

/// The named keys in order.
pub open spec fn key_at(i: int) -> KeyCode {
    if i == 0 {
        KeyCode::Tab
    } else if i == 1 {
        KeyCode::KeyA
    } else if i == 2 {
        KeyCode::KeyB
    } else if i == 3 {
        KeyCode::KeyC
    } else if i == 4 {
        KeyCode::KeyD
    } else if i == 5 {
        KeyCode::KeyE
    } else if i == 6 {
        KeyCode::KeyF
    } else if i == 7 {
        KeyCode::KeyG
    } else if i == 8 {
        KeyCode::KeyH
    } else if i == 9 {
        KeyCode::KeyI
    } else if i == 10 {
        KeyCode::KeyJ
    } else if i == 11 {
        KeyCode::KeyK
    } else if i == 12 {
        KeyCode::KeyL
    } else if i == 13 {
        KeyCode::KeyM
    } else if i == 14 {
        KeyCode::KeyN
    } else if i == 15 {
        KeyCode::KeyO
    } else if i == 16 {
        KeyCode::KeyP
    } else if i == 17 {
        KeyCode::KeyQ
    } else if i == 18 {
        KeyCode::KeyR
    } else if i == 19 {
        KeyCode::KeyS
    } else if i == 20 {
        KeyCode::KeyT
    } else if i == 21 {
        KeyCode::KeyU
    } else if i == 22 {
        KeyCode::KeyV
    } else if i == 23 {
        KeyCode::KeyW
    } else if i == 24 {
        KeyCode::KeyX
    } else if i == 25 {
        KeyCode::KeyY
    } else if i == 26 {
        KeyCode::KeyZ
    } else if i == 27 {
        KeyCode::Comma
    } else if i == 28 {
        KeyCode::Equal
    } else if i == 29 {
        KeyCode::Enter
    } else if i == 30 {
        KeyCode::Minus
    } else if i == 31 {
        KeyCode::Quote
    } else if i == 32 {
        KeyCode::Space
    } else if i == 33 {
        KeyCode::Slash
    } else if i == 34 {
        KeyCode::Digit0
    } else if i == 35 {
        KeyCode::Digit1
    } else if i == 36 {
        KeyCode::Digit2
    } else if i == 37 {
        KeyCode::Digit3
    } else if i == 38 {
        KeyCode::Digit4
    } else if i == 39 {
        KeyCode::Digit5
    } else if i == 40 {
        KeyCode::Digit6
    } else if i == 41 {
        KeyCode::Digit7
    } else if i == 42 {
        KeyCode::Digit8
    } else if i == 43 {
        KeyCode::Digit9
    } else if i == 44 {
        KeyCode::Escape
    } else if i == 45 {
        KeyCode::Period
    } else if i == 46 {
        KeyCode::ArrowUp
    } else if i == 47 {
        KeyCode::AltLeft
    } else if i == 48 {
        KeyCode::Numpad0
    } else if i == 49 {
        KeyCode::Numpad1
    } else if i == 50 {
        KeyCode::Numpad2
    } else if i == 51 {
        KeyCode::Numpad3
    } else if i == 52 {
        KeyCode::Numpad4
    } else if i == 53 {
        KeyCode::Numpad5
    } else if i == 54 {
        KeyCode::Numpad6
    } else if i == 55 {
        KeyCode::Numpad7
    } else if i == 56 {
        KeyCode::Numpad8
    } else if i == 57 {
        KeyCode::Numpad9
    } else if i == 58 {
        KeyCode::AltRight
    } else if i == 59 {
        KeyCode::CapsLock
    } else if i == 60 {
        KeyCode::ArrowDown
    } else if i == 61 {
        KeyCode::ArrowLeft
    } else if i == 62 {
        KeyCode::Backspace
    } else if i == 63 {
        KeyCode::Backquote
    } else if i == 64 {
        KeyCode::Backslash
    } else if i == 65 {
        KeyCode::NumpadAdd
    } else if i == 66 {
        KeyCode::Semicolon
    } else if i == 67 {
        KeyCode::ShiftLeft
    } else if i == 68 {
        KeyCode::ArrowRight
    } else if i == 69 {
        KeyCode::ShiftRight
    } else if i == 70 {
        KeyCode::BracketLeft
    } else if i == 71 {
        KeyCode::ControlLeft
    } else if i == 72 {
        KeyCode::NumpadEnter
    } else if i == 73 {
        KeyCode::BracketRight
    } else if i == 74 {
        KeyCode::ControlRight
    } else if i == 75 {
        KeyCode::NumpadDivide
    } else if i == 76 {
        KeyCode::NumpadDecimal
    } else if i == 77 {
        KeyCode::NumpadSubtract
    } else if i == 78 {
        KeyCode::NumpadMultiply
    } else {
        KeyCode::Other(0)
    }
}

pub fn key_code_to_str(code: KeyCode) -> (s: &'static str)
    ensures
        s@ == key_display(code)@,
{
    match code {
        KeyCode::KeyA => "A",
        KeyCode::KeyB => "B",
        KeyCode::KeyC => "C",
        KeyCode::KeyD => "D",
        KeyCode::KeyE => "E",
        KeyCode::KeyF => "F",
        KeyCode::KeyG => "G",
        KeyCode::KeyH => "H",
        KeyCode::KeyI => "I",
        KeyCode::KeyJ => "J",
        KeyCode::KeyK => "K",
        KeyCode::KeyL => "L",
        KeyCode::KeyM => "M",
        KeyCode::KeyN => "N",
        KeyCode::KeyO => "O",
        KeyCode::KeyP => "P",
        KeyCode::KeyQ => "Q",
        KeyCode::KeyR => "R",
        KeyCode::KeyS => "S",
        KeyCode::KeyT => "T",
        KeyCode::KeyU => "U",
        KeyCode::KeyV => "V",
        KeyCode::KeyW => "W",
        KeyCode::KeyX => "X",
        KeyCode::KeyY => "Y",
        KeyCode::KeyZ => "Z",
        KeyCode::Digit0 => "0",
        KeyCode::Digit1 => "1",
        KeyCode::Digit2 => "2",
        KeyCode::Digit3 => "3",
        KeyCode::Digit4 => "4",
        KeyCode::Digit5 => "5",
        KeyCode::Digit6 => "6",
        KeyCode::Digit7 => "7",
        KeyCode::Digit8 => "8",
        KeyCode::Digit9 => "9",
        KeyCode::Space => "Space",
        KeyCode::ShiftLeft => "LShift",
        KeyCode::ShiftRight => "RShift",
        KeyCode::ControlLeft => "LCtrl",
        KeyCode::ControlRight => "RCtrl",
        KeyCode::AltLeft => "LAlt",
        KeyCode::AltRight => "RAlt",
        KeyCode::Tab => "Tab",
        KeyCode::Enter => "Enter",
        KeyCode::Escape => "Esc",
        KeyCode::Backspace => "Backspace",
        KeyCode::CapsLock => "Caps",
        KeyCode::Semicolon => ";",
        KeyCode::Quote => "'",
        KeyCode::Comma => ",",
        KeyCode::Period => ".",
        KeyCode::Slash => "/",
        KeyCode::Backslash => "\\\\",
        KeyCode::BracketLeft => "[",
        KeyCode::BracketRight => "]",
        KeyCode::Minus => "-",
        KeyCode::Equal => "=",
        KeyCode::Backquote => "`",
        KeyCode::ArrowLeft => "Left",
        KeyCode::ArrowRight => "Right",
        KeyCode::ArrowUp => "Up",
        KeyCode::ArrowDown => "Down",
        KeyCode::Numpad0 => "Num0",
        KeyCode::Numpad1 => "Num1",
        KeyCode::Numpad2 => "Num2",
        KeyCode::Numpad3 => "Num3",
        KeyCode::Numpad4 => "Num4",
        KeyCode::Numpad5 => "Num5",
        KeyCode::Numpad6 => "Num6",
        KeyCode::Numpad7 => "Num7",
        KeyCode::Numpad8 => "Num8",
        KeyCode::Numpad9 => "Num9",
        KeyCode::NumpadEnter => "NumEnter",
        KeyCode::NumpadAdd => "Num+",
        KeyCode::NumpadSubtract => "Num-",
        KeyCode::NumpadMultiply => "Num*",
        KeyCode::NumpadDivide => "Num/",
        KeyCode::NumpadDecimal => "Num.",
        _ => "Key",
    }
}

pub fn key_code_to_identifier(code: KeyCode) -> (s: &'static str)
    ensures
        s@ == key_ident(code)@,
{
    match code {
        KeyCode::KeyA => "KeyA",
        KeyCode::KeyB => "KeyB",
        KeyCode::KeyC => "KeyC",
        KeyCode::KeyD => "KeyD",
        KeyCode::KeyE => "KeyE",
        KeyCode::KeyF => "KeyF",
        KeyCode::KeyG => "KeyG",
        KeyCode::KeyH => "KeyH",
        KeyCode::KeyI => "KeyI",
        KeyCode::KeyJ => "KeyJ",
        KeyCode::KeyK => "KeyK",
        KeyCode::KeyL => "KeyL",
        KeyCode::KeyM => "KeyM",
        KeyCode::KeyN => "KeyN",
        KeyCode::KeyO => "KeyO",
        KeyCode::KeyP => "KeyP",
        KeyCode::KeyQ => "KeyQ",
        KeyCode::KeyR => "KeyR",
        KeyCode::KeyS => "KeyS",
        KeyCode::KeyT => "KeyT",
        KeyCode::KeyU => "KeyU",
        KeyCode::KeyV => "KeyV",
        KeyCode::KeyW => "KeyW",
        KeyCode::KeyX => "KeyX",
        KeyCode::KeyY => "KeyY",
        KeyCode::KeyZ => "KeyZ",
        KeyCode::Digit0 => "Digit0",
        KeyCode::Digit1 => "Digit1",
        KeyCode::Digit2 => "Digit2",
        KeyCode::Digit3 => "Digit3",
        KeyCode::Digit4 => "Digit4",
        KeyCode::Digit5 => "Digit5",
        KeyCode::Digit6 => "Digit6",
        KeyCode::Digit7 => "Digit7",
        KeyCode::Digit8 => "Digit8",
        KeyCode::Digit9 => "Digit9",
        KeyCode::Space => "Space",
        KeyCode::ShiftLeft => "ShiftLeft",
        KeyCode::ShiftRight => "ShiftRight",
        KeyCode::ControlLeft => "ControlLeft",
        KeyCode::ControlRight => "ControlRight",
        KeyCode::AltLeft => "AltLeft",
        KeyCode::AltRight => "AltRight",
        KeyCode::Tab => "Tab",
        KeyCode::Enter => "Enter",
        KeyCode::Escape => "Escape",
        KeyCode::Backspace => "Backspace",
        KeyCode::CapsLock => "CapsLock",
        KeyCode::Semicolon => "Semicolon",
        KeyCode::Quote => "Quote",
        KeyCode::Comma => "Comma",
        KeyCode::Period => "Period",
        KeyCode::Slash => "Slash",
        KeyCode::Backslash => "Backslash",
        KeyCode::BracketLeft => "BracketLeft",
        KeyCode::BracketRight => "BracketRight",
        KeyCode::Minus => "Minus",
        KeyCode::Equal => "Equal",
        KeyCode::Backquote => "Backquote",
        KeyCode::ArrowLeft => "ArrowLeft",
        KeyCode::ArrowRight => "ArrowRight",
        KeyCode::ArrowUp => "ArrowUp",
        KeyCode::ArrowDown => "ArrowDown",
        KeyCode::Numpad0 => "Numpad0",
        KeyCode::Numpad1 => "Numpad1",
        KeyCode::Numpad2 => "Numpad2",
        KeyCode::Numpad3 => "Numpad3",
        KeyCode::Numpad4 => "Numpad4",
        KeyCode::Numpad5 => "Numpad5",
        KeyCode::Numpad6 => "Numpad6",
        KeyCode::Numpad7 => "Numpad7",
        KeyCode::Numpad8 => "Numpad8",
        KeyCode::Numpad9 => "Numpad9",
        KeyCode::NumpadEnter => "NumpadEnter",
        KeyCode::NumpadAdd => "NumpadAdd",
        KeyCode::NumpadSubtract => "NumpadSubtract",
        KeyCode::NumpadMultiply => "NumpadMultiply",
        KeyCode::NumpadDivide => "NumpadDivide",
        KeyCode::NumpadDecimal => "NumpadDecimal",
        _ => "Unknown",
    }
}

fn key_at_exec(i: u32) -> (k: KeyCode)
    ensures
        k == key_at(i as int),
{
    if i == 0 {
        KeyCode::Tab
    } else if i == 1 {
        KeyCode::KeyA
    } else if i == 2 {
        KeyCode::KeyB
    } else if i == 3 {
        KeyCode::KeyC
    } else if i == 4 {
        KeyCode::KeyD
    } else if i == 5 {
        KeyCode::KeyE
    } else if i == 6 {
        KeyCode::KeyF
    } else if i == 7 {
        KeyCode::KeyG
    } else if i == 8 {
        KeyCode::KeyH
    } else if i == 9 {
        KeyCode::KeyI
    } else if i == 10 {
        KeyCode::KeyJ
    } else if i == 11 {
        KeyCode::KeyK
    } else if i == 12 {
        KeyCode::KeyL
    } else if i == 13 {
        KeyCode::KeyM
    } else if i == 14 {
        KeyCode::KeyN
    } else if i == 15 {
        KeyCode::KeyO
    } else if i == 16 {
        KeyCode::KeyP
    } else if i == 17 {
        KeyCode::KeyQ
    } else if i == 18 {
        KeyCode::KeyR
    } else if i == 19 {
        KeyCode::KeyS
    } else if i == 20 {
        KeyCode::KeyT
    } else if i == 21 {
        KeyCode::KeyU
    } else if i == 22 {
        KeyCode::KeyV
    } else if i == 23 {
        KeyCode::KeyW
    } else if i == 24 {
        KeyCode::KeyX
    } else if i == 25 {
        KeyCode::KeyY
    } else if i == 26 {
        KeyCode::KeyZ
    } else if i == 27 {
        KeyCode::Comma
    } else if i == 28 {
        KeyCode::Equal
    } else if i == 29 {
        KeyCode::Enter
    } else if i == 30 {
        KeyCode::Minus
    } else if i == 31 {
        KeyCode::Quote
    } else if i == 32 {
        KeyCode::Space
    } else if i == 33 {
        KeyCode::Slash
    } else if i == 34 {
        KeyCode::Digit0
    } else if i == 35 {
        KeyCode::Digit1
    } else if i == 36 {
        KeyCode::Digit2
    } else if i == 37 {
        KeyCode::Digit3
    } else if i == 38 {
        KeyCode::Digit4
    } else if i == 39 {
        KeyCode::Digit5
    } else if i == 40 {
        KeyCode::Digit6
    } else if i == 41 {
        KeyCode::Digit7
    } else if i == 42 {
        KeyCode::Digit8
    } else if i == 43 {
        KeyCode::Digit9
    } else if i == 44 {
        KeyCode::Escape
    } else if i == 45 {
        KeyCode::Period
    } else if i == 46 {
        KeyCode::ArrowUp
    } else if i == 47 {
        KeyCode::AltLeft
    } else if i == 48 {
        KeyCode::Numpad0
    } else if i == 49 {
        KeyCode::Numpad1
    } else if i == 50 {
        KeyCode::Numpad2
    } else if i == 51 {
        KeyCode::Numpad3
    } else if i == 52 {
        KeyCode::Numpad4
    } else if i == 53 {
        KeyCode::Numpad5
    } else if i == 54 {
        KeyCode::Numpad6
    } else if i == 55 {
        KeyCode::Numpad7
    } else if i == 56 {
        KeyCode::Numpad8
    } else if i == 57 {
        KeyCode::Numpad9
    } else if i == 58 {
        KeyCode::AltRight
    } else if i == 59 {
        KeyCode::CapsLock
    } else if i == 60 {
        KeyCode::ArrowDown
    } else if i == 61 {
        KeyCode::ArrowLeft
    } else if i == 62 {
        KeyCode::Backspace
    } else if i == 63 {
        KeyCode::Backquote
    } else if i == 64 {
        KeyCode::Backslash
    } else if i == 65 {
        KeyCode::NumpadAdd
    } else if i == 66 {
        KeyCode::Semicolon
    } else if i == 67 {
        KeyCode::ShiftLeft
    } else if i == 68 {
        KeyCode::ArrowRight
    } else if i == 69 {
        KeyCode::ShiftRight
    } else if i == 70 {
        KeyCode::BracketLeft
    } else if i == 71 {
        KeyCode::ControlLeft
    } else if i == 72 {
        KeyCode::NumpadEnter
    } else if i == 73 {
        KeyCode::BracketRight
    } else if i == 74 {
        KeyCode::ControlRight
    } else if i == 75 {
        KeyCode::NumpadDivide
    } else if i == 76 {
        KeyCode::NumpadDecimal
    } else if i == 77 {
        KeyCode::NumpadSubtract
    } else if i == 78 {
        KeyCode::NumpadMultiply
    } else {
        KeyCode::Other(0)
    }
}



/// A number that tells the identifiers of named keys apart: their length,
/// first, last and second-to-last characters.
pub open spec fn ident_fingerprint(s: Seq<char>) -> int {
    s.len() * 0x100_0000 + (s[0] as int) * 0x1_0000 + (s[s.len() - 1] as int) * 0x100 + (s[s.len() - 2] as int)
}

/// The fingerprint of the identifier of the `i`-th named key (the named keys
/// are listed in increasing fingerprint order).
spec fn fingerprint_at(i: int) -> int {
    if i == 0 {
        55861857
    } else if i == 1 {
        72040825
    } else if i == 2 {
        72041081
    } else if i == 3 {
        72041337
    } else if i == 4 {
        72041593
    } else if i == 5 {
        72041849
    } else if i == 6 {
        72042105
    } else if i == 7 {
        72042361
    } else if i == 8 {
        72042617
    } else if i == 9 {
        72042873
    } else if i == 10 {
        72043129
    } else if i == 11 {
        72043385
    } else if i == 12 {
        72043641
    } else if i == 13 {
        72043897
    } else if i == 14 {
        72044153
    } else if i == 15 {
        72044409
    } else if i == 16 {
        72044665
    } else if i == 17 {
        72044921
    } else if i == 18 {
        72045177
    } else if i == 19 {
        72045433
    } else if i == 20 {
        72045689
    } else if i == 21 {
        72045945
    } else if i == 22 {
        72046201
    } else if i == 23 {
        72046457
    } else if i == 24 {
        72046713
    } else if i == 25 {
        72046969
    } else if i == 26 {
        72047225
    } else if i == 27 {
        88301933
    } else if i == 28 {
        88435809
    } else if i == 29 {
        88437349
    } else if i == 30 {
        88961909
    } else if i == 31 {
        89220468
    } else if i == 32 {
        89351523
    } else if i == 33 {
        89352307
    } else if i == 34 {
        105132148
    } else if i == 35 {
        105132404
    } else if i == 36 {
        105132660
    } else if i == 37 {
        105132916
    } else if i == 38 {
        105133172
    } else if i == 39 {
        105133428
    } else if i == 40 {
        105133684
    } else if i == 41 {
        105133940
    } else if i == 42 {
        105134196
    } else if i == 43 {
        105134452
    } else if i == 44 {
        105211248
    } else if i == 45 {
        105931887
    } else if i == 46 {
        121729109
    } else if i == 47 {
        121730150
    } else if i == 48 {
        122564708
    } else if i == 49 {
        122564964
    } else if i == 50 {
        122565220
    } else if i == 51 {
        122565476
    } else if i == 52 {
        122565732
    } else if i == 53 {
        122565988
    } else if i == 54 {
        122566244
    } else if i == 55 {
        122566500
    } else if i == 56 {
        122566756
    } else if i == 57 {
        122567012
    } else if i == 58 {
        138507368
    } else if i == 59 {
        138636131
    } else if i == 60 {
        155283063
    } else if i == 61 {
        155284582
    } else if i == 62 {
        155346275
    } else if i == 63 {
        155346292
    } else if i == 64 {
        155347059
    } else if i == 65 {
        156132452
    } else if i == 66 {
        156462703
    } else if i == 67 {
        156464230
    } else if i == 68 {
        172061800
    } else if i == 69 {
        173241448
    } else if i == 70 {
        188904550
    } else if i == 71 {
        188970086
    } else if i == 72 {
        189690469
    } else if i == 73 {
        205681768
    } else if i == 74 {
        205747304
    } else if i == 75 {
        206464356
    } else if i == 76 {
        223243361
    } else if i == 77 {
        240022627
    } else if i == 78 {
        240023916
    } else {
        0
    }
}

/// The position of a named key in `key_at`, or `NAMED_KEYS` for a key
/// without an identifier.
pub open spec fn key_index(k: KeyCode) -> int {
    match k {
        KeyCode::Tab => 0,
        KeyCode::KeyA => 1,
        KeyCode::KeyB => 2,
        KeyCode::KeyC => 3,
        KeyCode::KeyD => 4,
        KeyCode::KeyE => 5,
        KeyCode::KeyF => 6,
        KeyCode::KeyG => 7,
        KeyCode::KeyH => 8,
        KeyCode::KeyI => 9,
        KeyCode::KeyJ => 10,
        KeyCode::KeyK => 11,
        KeyCode::KeyL => 12,
        KeyCode::KeyM => 13,
        KeyCode::KeyN => 14,
        KeyCode::KeyO => 15,
        KeyCode::KeyP => 16,
        KeyCode::KeyQ => 17,
        KeyCode::KeyR => 18,
        KeyCode::KeyS => 19,
        KeyCode::KeyT => 20,
        KeyCode::KeyU => 21,
        KeyCode::KeyV => 22,
        KeyCode::KeyW => 23,
        KeyCode::KeyX => 24,
        KeyCode::KeyY => 25,
        KeyCode::KeyZ => 26,
        KeyCode::Comma => 27,
        KeyCode::Equal => 28,
        KeyCode::Enter => 29,
        KeyCode::Minus => 30,
        KeyCode::Quote => 31,
        KeyCode::Space => 32,
        KeyCode::Slash => 33,
        KeyCode::Digit0 => 34,
        KeyCode::Digit1 => 35,
        KeyCode::Digit2 => 36,
        KeyCode::Digit3 => 37,
        KeyCode::Digit4 => 38,
        KeyCode::Digit5 => 39,
        KeyCode::Digit6 => 40,
        KeyCode::Digit7 => 41,
        KeyCode::Digit8 => 42,
        KeyCode::Digit9 => 43,
        KeyCode::Escape => 44,
        KeyCode::Period => 45,
        KeyCode::ArrowUp => 46,
        KeyCode::AltLeft => 47,
        KeyCode::Numpad0 => 48,
        KeyCode::Numpad1 => 49,
        KeyCode::Numpad2 => 50,
        KeyCode::Numpad3 => 51,
        KeyCode::Numpad4 => 52,
        KeyCode::Numpad5 => 53,
        KeyCode::Numpad6 => 54,
        KeyCode::Numpad7 => 55,
        KeyCode::Numpad8 => 56,
        KeyCode::Numpad9 => 57,
        KeyCode::AltRight => 58,
        KeyCode::CapsLock => 59,
        KeyCode::ArrowDown => 60,
        KeyCode::ArrowLeft => 61,
        KeyCode::Backspace => 62,
        KeyCode::Backquote => 63,
        KeyCode::Backslash => 64,
        KeyCode::NumpadAdd => 65,
        KeyCode::Semicolon => 66,
        KeyCode::ShiftLeft => 67,
        KeyCode::ArrowRight => 68,
        KeyCode::ShiftRight => 69,
        KeyCode::BracketLeft => 70,
        KeyCode::ControlLeft => 71,
        KeyCode::NumpadEnter => 72,
        KeyCode::BracketRight => 73,
        KeyCode::ControlRight => 74,
        KeyCode::NumpadDivide => 75,
        KeyCode::NumpadDecimal => 76,
        KeyCode::NumpadSubtract => 77,
        KeyCode::NumpadMultiply => 78,
        _ => 79,
    }
}

/// The first named key from position `i` on whose identifier is `s`.
pub open spec fn ident_lookup_from(s: Seq<char>, i: int) -> Option<KeyCode>
    decreases NAMED_KEYS - i,
{
    if i < 0 || i >= NAMED_KEYS {
        None
    } else if key_ident(key_at(i))@ == s {
        Some(key_at(i))
    } else {
        ident_lookup_from(s, i + 1)
    }
}


proof fn lemma_fingerprint_step(i: int)
    requires
        0 <= i < 78,
    ensures
        fingerprint_at(i) < fingerprint_at(i + 1),
{
}

proof fn lemma_fingerprint_increasing(i: int, j: int)
    requires
        0 <= i < j < 79,
    ensures
        fingerprint_at(i) < fingerprint_at(j),
    decreases j - i,
{
    lemma_fingerprint_step(j - 1);
    if i < j - 1 {
        lemma_fingerprint_increasing(i, j - 1);
    }
}

proof fn lemma_ident_fingerprint(i: int)
    requires
        0 <= i < 79,
    ensures
        ident_fingerprint(key_ident(key_at(i))@) == fingerprint_at(i),
{
    if i == 0 {
        reveal_strlit("Tab");
    } else if i == 1 {
        reveal_strlit("KeyA");
    } else if i == 2 {
        reveal_strlit("KeyB");
    } else if i == 3 {
        reveal_strlit("KeyC");
    } else if i == 4 {
        reveal_strlit("KeyD");
    } else if i == 5 {
        reveal_strlit("KeyE");
    } else if i == 6 {
        reveal_strlit("KeyF");
    } else if i == 7 {
        reveal_strlit("KeyG");
    } else if i == 8 {
        reveal_strlit("KeyH");
    } else if i == 9 {
        reveal_strlit("KeyI");
    } else if i == 10 {
        reveal_strlit("KeyJ");
    } else if i == 11 {
        reveal_strlit("KeyK");
    } else if i == 12 {
        reveal_strlit("KeyL");
    } else if i == 13 {
        reveal_strlit("KeyM");
    } else if i == 14 {
        reveal_strlit("KeyN");
    } else if i == 15 {
        reveal_strlit("KeyO");
    } else if i == 16 {
        reveal_strlit("KeyP");
    } else if i == 17 {
        reveal_strlit("KeyQ");
    } else if i == 18 {
        reveal_strlit("KeyR");
    } else if i == 19 {
        reveal_strlit("KeyS");
    } else if i == 20 {
        reveal_strlit("KeyT");
    } else if i == 21 {
        reveal_strlit("KeyU");
    } else if i == 22 {
        reveal_strlit("KeyV");
    } else if i == 23 {
        reveal_strlit("KeyW");
    } else if i == 24 {
        reveal_strlit("KeyX");
    } else if i == 25 {
        reveal_strlit("KeyY");
    } else if i == 26 {
        reveal_strlit("KeyZ");
    } else if i == 27 {
        reveal_strlit("Comma");
    } else if i == 28 {
        reveal_strlit("Equal");
    } else if i == 29 {
        reveal_strlit("Enter");
    } else if i == 30 {
        reveal_strlit("Minus");
    } else if i == 31 {
        reveal_strlit("Quote");
    } else if i == 32 {
        reveal_strlit("Space");
    } else if i == 33 {
        reveal_strlit("Slash");
    } else if i == 34 {
        reveal_strlit("Digit0");
    } else if i == 35 {
        reveal_strlit("Digit1");
    } else if i == 36 {
        reveal_strlit("Digit2");
    } else if i == 37 {
        reveal_strlit("Digit3");
    } else if i == 38 {
        reveal_strlit("Digit4");
    } else if i == 39 {
        reveal_strlit("Digit5");
    } else if i == 40 {
        reveal_strlit("Digit6");
    } else if i == 41 {
        reveal_strlit("Digit7");
    } else if i == 42 {
        reveal_strlit("Digit8");
    } else if i == 43 {
        reveal_strlit("Digit9");
    } else if i == 44 {
        reveal_strlit("Escape");
    } else if i == 45 {
        reveal_strlit("Period");
    } else if i == 46 {
        reveal_strlit("ArrowUp");
    } else if i == 47 {
        reveal_strlit("AltLeft");
    } else if i == 48 {
        reveal_strlit("Numpad0");
    } else if i == 49 {
        reveal_strlit("Numpad1");
    } else if i == 50 {
        reveal_strlit("Numpad2");
    } else if i == 51 {
        reveal_strlit("Numpad3");
    } else if i == 52 {
        reveal_strlit("Numpad4");
    } else if i == 53 {
        reveal_strlit("Numpad5");
    } else if i == 54 {
        reveal_strlit("Numpad6");
    } else if i == 55 {
        reveal_strlit("Numpad7");
    } else if i == 56 {
        reveal_strlit("Numpad8");
    } else if i == 57 {
        reveal_strlit("Numpad9");
    } else if i == 58 {
        reveal_strlit("AltRight");
    } else if i == 59 {
        reveal_strlit("CapsLock");
    } else if i == 60 {
        reveal_strlit("ArrowDown");
    } else if i == 61 {
        reveal_strlit("ArrowLeft");
    } else if i == 62 {
        reveal_strlit("Backspace");
    } else if i == 63 {
        reveal_strlit("Backquote");
    } else if i == 64 {
        reveal_strlit("Backslash");
    } else if i == 65 {
        reveal_strlit("NumpadAdd");
    } else if i == 66 {
        reveal_strlit("Semicolon");
    } else if i == 67 {
        reveal_strlit("ShiftLeft");
    } else if i == 68 {
        reveal_strlit("ArrowRight");
    } else if i == 69 {
        reveal_strlit("ShiftRight");
    } else if i == 70 {
        reveal_strlit("BracketLeft");
    } else if i == 71 {
        reveal_strlit("ControlLeft");
    } else if i == 72 {
        reveal_strlit("NumpadEnter");
    } else if i == 73 {
        reveal_strlit("BracketRight");
    } else if i == 74 {
        reveal_strlit("ControlRight");
    } else if i == 75 {
        reveal_strlit("NumpadDivide");
    } else if i == 76 {
        reveal_strlit("NumpadDecimal");
    } else if i == 77 {
        reveal_strlit("NumpadSubtract");
    } else if i == 78 {
        reveal_strlit("NumpadMultiply");
    }
}

proof fn lemma_ident_lookup_from(i: int, j: int)
    requires
        0 <= j <= i < 79,
    ensures
        ident_lookup_from(key_ident(key_at(i))@, j) == Some(key_at(i)),
    decreases i - j,
{
    if j < i {
        lemma_ident_fingerprint(i);
        lemma_ident_fingerprint(j);
        lemma_fingerprint_increasing(j, i);
        lemma_ident_lookup_from(i, j + 1);
    }
}

proof fn lemma_key_index(k: KeyCode)
    requires
        key_index(k) < 79,
    ensures
        0 <= key_index(k),
        key_at(key_index(k)) == k,
{
}

/// Every named key is found again from its identifier.
pub proof fn lemma_identifier_roundtrip(k: KeyCode)
    requires
        key_index(k) < NAMED_KEYS,
    ensures
        ident_lookup_from(key_ident(k)@, 0) == Some(k),
{
    lemma_key_index(k);
    lemma_ident_lookup_from(key_index(k), 0);
}


proof fn lemma_ident_plain(i: int)
    requires
        0 <= i < 79,
    ensures
        !key_ident(key_at(i))@.contains(','),
{
    if i == 0 {
        reveal_strlit("Tab");
    } else if i == 1 {
        reveal_strlit("KeyA");
    } else if i == 2 {
        reveal_strlit("KeyB");
    } else if i == 3 {
        reveal_strlit("KeyC");
    } else if i == 4 {
        reveal_strlit("KeyD");
    } else if i == 5 {
        reveal_strlit("KeyE");
    } else if i == 6 {
        reveal_strlit("KeyF");
    } else if i == 7 {
        reveal_strlit("KeyG");
    } else if i == 8 {
        reveal_strlit("KeyH");
    } else if i == 9 {
        reveal_strlit("KeyI");
    } else if i == 10 {
        reveal_strlit("KeyJ");
    } else if i == 11 {
        reveal_strlit("KeyK");
    } else if i == 12 {
        reveal_strlit("KeyL");
    } else if i == 13 {
        reveal_strlit("KeyM");
    } else if i == 14 {
        reveal_strlit("KeyN");
    } else if i == 15 {
        reveal_strlit("KeyO");
    } else if i == 16 {
        reveal_strlit("KeyP");
    } else if i == 17 {
        reveal_strlit("KeyQ");
    } else if i == 18 {
        reveal_strlit("KeyR");
    } else if i == 19 {
        reveal_strlit("KeyS");
    } else if i == 20 {
        reveal_strlit("KeyT");
    } else if i == 21 {
        reveal_strlit("KeyU");
    } else if i == 22 {
        reveal_strlit("KeyV");
    } else if i == 23 {
        reveal_strlit("KeyW");
    } else if i == 24 {
        reveal_strlit("KeyX");
    } else if i == 25 {
        reveal_strlit("KeyY");
    } else if i == 26 {
        reveal_strlit("KeyZ");
    } else if i == 27 {
        reveal_strlit("Comma");
    } else if i == 28 {
        reveal_strlit("Equal");
    } else if i == 29 {
        reveal_strlit("Enter");
    } else if i == 30 {
        reveal_strlit("Minus");
    } else if i == 31 {
        reveal_strlit("Quote");
    } else if i == 32 {
        reveal_strlit("Space");
    } else if i == 33 {
        reveal_strlit("Slash");
    } else if i == 34 {
        reveal_strlit("Digit0");
    } else if i == 35 {
        reveal_strlit("Digit1");
    } else if i == 36 {
        reveal_strlit("Digit2");
    } else if i == 37 {
        reveal_strlit("Digit3");
    } else if i == 38 {
        reveal_strlit("Digit4");
    } else if i == 39 {
        reveal_strlit("Digit5");
    } else if i == 40 {
        reveal_strlit("Digit6");
    } else if i == 41 {
        reveal_strlit("Digit7");
    } else if i == 42 {
        reveal_strlit("Digit8");
    } else if i == 43 {
        reveal_strlit("Digit9");
    } else if i == 44 {
        reveal_strlit("Escape");
    } else if i == 45 {
        reveal_strlit("Period");
    } else if i == 46 {
        reveal_strlit("ArrowUp");
    } else if i == 47 {
        reveal_strlit("AltLeft");
    } else if i == 48 {
        reveal_strlit("Numpad0");
    } else if i == 49 {
        reveal_strlit("Numpad1");
    } else if i == 50 {
        reveal_strlit("Numpad2");
    } else if i == 51 {
        reveal_strlit("Numpad3");
    } else if i == 52 {
        reveal_strlit("Numpad4");
    } else if i == 53 {
        reveal_strlit("Numpad5");
    } else if i == 54 {
        reveal_strlit("Numpad6");
    } else if i == 55 {
        reveal_strlit("Numpad7");
    } else if i == 56 {
        reveal_strlit("Numpad8");
    } else if i == 57 {
        reveal_strlit("Numpad9");
    } else if i == 58 {
        reveal_strlit("AltRight");
    } else if i == 59 {
        reveal_strlit("CapsLock");
    } else if i == 60 {
        reveal_strlit("ArrowDown");
    } else if i == 61 {
        reveal_strlit("ArrowLeft");
    } else if i == 62 {
        reveal_strlit("Backspace");
    } else if i == 63 {
        reveal_strlit("Backquote");
    } else if i == 64 {
        reveal_strlit("Backslash");
    } else if i == 65 {
        reveal_strlit("NumpadAdd");
    } else if i == 66 {
        reveal_strlit("Semicolon");
    } else if i == 67 {
        reveal_strlit("ShiftLeft");
    } else if i == 68 {
        reveal_strlit("ArrowRight");
    } else if i == 69 {
        reveal_strlit("ShiftRight");
    } else if i == 70 {
        reveal_strlit("BracketLeft");
    } else if i == 71 {
        reveal_strlit("ControlLeft");
    } else if i == 72 {
        reveal_strlit("NumpadEnter");
    } else if i == 73 {
        reveal_strlit("BracketRight");
    } else if i == 74 {
        reveal_strlit("ControlRight");
    } else if i == 75 {
        reveal_strlit("NumpadDivide");
    } else if i == 76 {
        reveal_strlit("NumpadDecimal");
    } else if i == 77 {
        reveal_strlit("NumpadSubtract");
    } else if i == 78 {
        reveal_strlit("NumpadMultiply");
    }
}

/// Whether two strings hold the same characters.
fn str_eq(a: &str, b: &str) -> (r: bool)
    ensures
        r == (a@ == b@),
{
    let x = chars_of(a);
    let y = chars_of(b);
    if x.len() != y.len() {
        assert(a@.len() != b@.len());
        return false;
    }
    let mut i: usize = 0;
    while i < x.len()
        invariant
            i <= x@.len(),
            x@.len() == y@.len(),
            x@ == a@,
            y@ == b@,
            forall|k: int| 0 <= k < i ==> x@[k] == y@[k],
        decreases x@.len() - i,
    {
        if x[i] != y[i] {
            assert(a@[i as int] != b@[i as int]);
            return false;
        }
        i = i + 1;
    }
    assert(x@ =~= y@);
    true
}

/// The named key stored under identifier `s`.
pub fn identifier_to_key_code(s: &str) -> (r: Option<KeyCode>)
    ensures
        r == ident_lookup_from(s@, 0),
{
    let mut i: u32 = 0;
    while i < NAMED_KEYS
        invariant
            i <= NAMED_KEYS,
            ident_lookup_from(s@, 0) == ident_lookup_from(s@, i as int),
        decreases NAMED_KEYS - i,
    {
        let k = key_at_exec(i);
        if str_eq(key_code_to_identifier(k), s) {
            return Some(k);
        }
        i = i + 1;
    }
    None
}

/// Custom bindings: key and lane pairs.
pub type Bindings = Seq<(KeyCode, Lane)>;

/// No key is bound twice.
pub open spec fn keys_unique(bs: Bindings) -> bool {
    forall|i: int, j: int| 0 <= i < j < bs.len() ==> (#[trigger] bs[i]).0 != (#[trigger] bs[j]).0
}

/// The lane `k` is bound to.
pub open spec fn bound_lane(bs: Bindings, k: KeyCode) -> Option<Lane>
    decreases bs.len(),
{
    if bs.len() == 0 {
        None
    } else if bs[0].0 == k {
        Some(bs[0].1)
    } else {
        bound_lane(bs.drop_first(), k)
    }
}

/// The first key bound to lane `l`.
pub open spec fn key_for(bs: Bindings, l: Lane) -> Option<KeyCode>
    decreases bs.len(),
{
    if bs.len() == 0 {
        None
    } else if bs[0].1 == l {
        Some(bs[0].0)
    } else {
        key_for(bs.drop_first(), l)
    }
}

/// The bindings of a built-in layout (the arcade layout for `Custom`).
pub open spec fn preset_bindings(p: KeyPreset) -> Bindings {
    if p == KeyPreset::HomeRow {
        seq![
            (KeyCode::ShiftLeft, Lane::Scratch),
            (KeyCode::KeyS, Lane::Key1),
            (KeyCode::KeyD, Lane::Key2),
            (KeyCode::KeyF, Lane::Key3),
            (KeyCode::Space, Lane::Key4),
            (KeyCode::KeyJ, Lane::Key5),
            (KeyCode::KeyK, Lane::Key6),
            (KeyCode::KeyL, Lane::Key7),
        ]
    } else {
        seq![
            (KeyCode::ShiftLeft, Lane::Scratch),
            (KeyCode::KeyZ, Lane::Key1),
            (KeyCode::KeyS, Lane::Key2),
            (KeyCode::KeyX, Lane::Key3),
            (KeyCode::KeyD, Lane::Key4),
            (KeyCode::KeyC, Lane::Key5),
            (KeyCode::KeyF, Lane::Key6),
            (KeyCode::KeyV, Lane::Key7),
        ]
    }
}

/// The lane a built-in layout maps a key to (either control key also
/// works as scratch).
pub open spec fn preset_lane(p: KeyPreset, k: KeyCode) -> Option<Lane> {
    if k == KeyCode::ControlLeft {
        Some(Lane::Scratch)
    } else {
        bound_lane(preset_bindings(p), k)
    }
}

/// `bs` without the bindings of lane `l` and of key `k`, in order.
pub open spec fn unbind(bs: Bindings, k: KeyCode, l: Lane) -> Bindings
    decreases bs.len(),
{
    if bs.len() == 0 {
        bs
    } else {
        let r = unbind(bs.drop_last(), k, l);
        let e = bs.last();
        if e.1 != l && e.0 != k {
            r.push(e)
        } else {
            r
        }
    }
}

/// Bindings after binding `k` to `l`: every other binding of `l` and any
/// earlier binding of `k` removed, then `k -> l` added.
pub open spec fn rebind(bs: Bindings, k: KeyCode, l: Lane) -> Bindings {
    unbind(bs, k, l).push((k, l))
}

/// Custom bindings after binding `k` to `l` under layout `p` with custom
/// bindings `bs`: the first custom binding starts from the layout's own.
pub open spec fn bind_result(p: KeyPreset, bs: Bindings, k: KeyCode, l: Lane) -> Bindings {
    rebind(
        if p != KeyPreset::Custom && bs.len() == 0 {
            preset_bindings(p)
        } else {
            bs
        },
        k,
        l,
    )
}

/// The preset after toggling.
pub open spec fn toggled(p: KeyPreset, has_custom: bool) -> KeyPreset {
    match p {
        KeyPreset::HomeRow => KeyPreset::ArcadeZx,
        KeyPreset::ArcadeZx => if has_custom {
            KeyPreset::Custom
        } else {
            KeyPreset::HomeRow
        },
        KeyPreset::Custom => KeyPreset::HomeRow,
    }
}

/// Key mapping configuration: a built-in layout, or custom bindings.
#[derive(Debug, Clone)]
pub struct InputConfig {
    pub preset: KeyPreset,
    pub custom_bindings: Vec<(KeyCode, Lane)>,
}

impl InputConfig {
    pub open spec fn wf(&self) -> bool {
        keys_unique(self.custom_bindings@)
    }

    pub fn new(preset: KeyPreset) -> (c: Self)
        ensures
            c.wf(),
            c.preset == preset,
            c.custom_bindings@ == Seq::<(KeyCode, Lane)>::empty(),
    {
        InputConfig { preset, custom_bindings: Vec::new() }
    }

    /// Home row -> arcade -> custom (when custom bindings exist) -> home row.
    pub fn toggle_preset(&mut self)
        ensures
            final(self).preset == toggled(old(self).preset, old(self).custom_bindings@.len() > 0),
            final(self).custom_bindings == old(self).custom_bindings,
    {
        self.preset = match self.preset {
            KeyPreset::HomeRow => KeyPreset::ArcadeZx,
            KeyPreset::ArcadeZx => {
                if self.custom_bindings.len() > 0 {
                    KeyPreset::Custom
                } else {
                    KeyPreset::HomeRow
                }
            },
            KeyPreset::Custom => KeyPreset::HomeRow,
        };
    }

    /// Switches to a built-in layout and drops the custom bindings.
    pub fn reset_to_preset(&mut self, preset: KeyPreset)
        ensures
            final(self).wf(),
            final(self).preset == preset,
            final(self).custom_bindings@ == Seq::<(KeyCode, Lane)>::empty(),
    {
        self.preset = preset;
        self.custom_bindings = Vec::new();
    }

    fn init_custom_from_preset(&mut self, preset: KeyPreset)
        ensures
            final(self).custom_bindings@ == preset_bindings(preset),
            final(self).preset == old(self).preset,
            final(self).wf(),
    {
        let mut v: Vec<(KeyCode, Lane)> = Vec::new();
        if preset == KeyPreset::HomeRow {
            v.push((KeyCode::ShiftLeft, Lane::Scratch));
            v.push((KeyCode::KeyS, Lane::Key1));
            v.push((KeyCode::KeyD, Lane::Key2));
            v.push((KeyCode::KeyF, Lane::Key3));
            v.push((KeyCode::Space, Lane::Key4));
            v.push((KeyCode::KeyJ, Lane::Key5));
            v.push((KeyCode::KeyK, Lane::Key6));
            v.push((KeyCode::KeyL, Lane::Key7));
        } else {
            v.push((KeyCode::ShiftLeft, Lane::Scratch));
            v.push((KeyCode::KeyZ, Lane::Key1));
            v.push((KeyCode::KeyS, Lane::Key2));
            v.push((KeyCode::KeyX, Lane::Key3));
            v.push((KeyCode::KeyD, Lane::Key4));
            v.push((KeyCode::KeyC, Lane::Key5));
            v.push((KeyCode::KeyF, Lane::Key6));
            v.push((KeyCode::KeyV, Lane::Key7));
        }
        assert(v@ =~= preset_bindings(preset));
        self.custom_bindings = v;
    }

    /// Binds `key` to `lane`; the lane's other key and the key's other lane
    /// are unbound. The first custom binding starts from the current layout.
    pub fn bind_key(&mut self, key: KeyCode, lane: Lane)
        requires
            old(self).wf(),
        ensures
            final(self).wf(),
            final(self).preset == KeyPreset::Custom,
            final(self).custom_bindings@ == bind_result(old(self).preset, old(self).custom_bindings@, key, lane),
    {
        if self.preset != KeyPreset::Custom && self.custom_bindings.len() == 0 {
            let p = self.preset;
            self.init_custom_from_preset(p);
        }
        let ghost base = self.custom_bindings@;
        let mut kept: Vec<(KeyCode, Lane)> = Vec::new();
        let mut i: usize = 0;
        assert(base.take(0) =~= Seq::<(KeyCode, Lane)>::empty());
        while i < self.custom_bindings.len()
            invariant
                i <= base.len(),
                base == self.custom_bindings@,
                keys_unique(base),
                kept@ == unbind(base.take(i as int), key, lane),
            decreases base.len() - i,
        {
            let e = self.custom_bindings[i];
            assert(base.take(i + 1).drop_last() =~= base.take(i as int));
            if e.1 != lane && e.0 != key {
                kept.push(e);
            }
            i = i + 1;
        }
        assert(base.take(base.len() as int) =~= base);
        proof {
            lemma_rebind_unique(base, key, lane);
        }
        kept.push((key, lane));
        self.custom_bindings = kept;
        self.preset = KeyPreset::Custom;
    }
}

proof fn lemma_unbind_props(bs: Bindings, k: KeyCode, l: Lane)
    requires
        keys_unique(bs),
    ensures
        keys_unique(unbind(bs, k, l)),
        forall|i: int| 0 <= i < unbind(bs, k, l).len() ==> {
            &&& (#[trigger] unbind(bs, k, l)[i]).1 != l
            &&& unbind(bs, k, l)[i].0 != k
            &&& bs.contains(unbind(bs, k, l)[i])
        },
    decreases bs.len(),
{
    if bs.len() > 0 {
        let rest = bs.drop_last();
        assert(keys_unique(rest)) by {
            assert forall|i: int, j: int| 0 <= i < j < rest.len() implies (#[trigger] rest[i]).0 != (#[trigger] rest[j]).0 by {
                assert(rest[i] == bs[i] && rest[j] == bs[j]);
            }
        }
        lemma_unbind_props(rest, k, l);
        let r = unbind(rest, k, l);
        let e = bs.last();
        assert forall|i: int| 0 <= i < r.len() implies bs.contains(#[trigger] r[i]) by {
            assert(rest.contains(r[i]));
            let j = choose|j: int| 0 <= j < rest.len() && rest[j] == r[i];
            assert(bs[j] == r[i]);
        }
        if e.1 != l && e.0 != k {
            let r2 = r.push(e);
            assert forall|i: int, j: int| 0 <= i < j < r2.len() implies (#[trigger] r2[i]).0 != (#[trigger] r2[j]).0 by {
                if j == r.len() {
                    assert(rest.contains(r[i]));
                    let m = choose|m: int| 0 <= m < rest.len() && rest[m] == r[i];
                    assert(bs[m] == r[i]);
                    assert(bs[bs.len() - 1] == e);
                } else {
                    assert(r2[i] == r[i] && r2[j] == r[j]);
                }
            }
            assert forall|i: int| 0 <= i < r2.len() implies bs.contains(#[trigger] r2[i]) by {
                if i == r.len() {
                    assert(bs[bs.len() - 1] == e);
                } else {
                    assert(r2[i] == r[i]);
                }
            }
        }
    }
}

proof fn lemma_rebind_unique(bs: Bindings, k: KeyCode, l: Lane)
    requires
        keys_unique(bs),
    ensures
        keys_unique(rebind(bs, k, l)),
{
    lemma_unbind_props(bs, k, l);
    let f = unbind(bs, k, l);
    let r = f.push((k, l));
    assert forall|i: int, j: int| 0 <= i < j < r.len() implies (#[trigger] r[i]).0 != (#[trigger] r[j]).0 by {
        if j == f.len() {
            assert(r[i] == f[i]);
        } else {
            assert(r[i] == f[i] && r[j] == f[j]);
        }
    }
}


/// The bindings a layout plays with: the custom ones, or the layout's own.
pub open spec fn active_bindings(p: KeyPreset, bs: Bindings) -> Bindings {
    if p == KeyPreset::Custom {
        bs
    } else {
        preset_bindings(p)
    }
}

/// The lane `key` plays under layout `p` with custom bindings `bs`.
pub open spec fn mapped_lane(p: KeyPreset, bs: Bindings, key: PhysicalKey) -> Option<Lane> {
    match key {
        PhysicalKey::Unidentified => None,
        PhysicalKey::Code(code) => if p == KeyPreset::Custom {
            bound_lane(bs, code)
        } else {
            preset_lane(p, code)
        },
    }
}

/// The label of the key that plays `lane`, or `None`.
pub open spec fn lane_key_name(p: KeyPreset, bs: Bindings, lane: Lane) -> Seq<char> {
    match key_for(active_bindings(p, bs), lane) {
        Some(k) => key_display(k)@,
        None => seq!['N', 'o', 'n', 'e'],
    }
}

/// `lane_name:identifier` for the first key bound to each lane that has one,
/// among the first `n` lanes.
pub open spec fn binding_parts(bs: Bindings, n: int) -> Seq<Seq<char>>
    decreases n,
{
    if n <= 0 {
        Seq::empty()
    } else {
        let prev = binding_parts(bs, n - 1);
        match key_for(bs, lane_at(n - 1)) {
            Some(k) => prev.push(lane_name(lane_at(n - 1)) + seq![':'] + key_ident(k)@),
            None => prev,
        }
    }
}

/// The parts joined by commas.
pub open spec fn join_commas(parts: Seq<Seq<char>>) -> Seq<char>
    decreases parts.len(),
{
    if parts.len() == 0 {
        Seq::empty()
    } else if parts.len() == 1 {
        parts[0]
    } else {
        join_commas(parts.drop_last()) + seq![','] + parts.last()
    }
}

/// The text form of custom bindings, lanes in order.
pub open spec fn serialized(bs: Bindings) -> Seq<char> {
    join_commas(binding_parts(bs, 8))
}

/// The pieces of `s` between the separators `c` (as `str::split`).
pub open spec fn split_on(s: Seq<char>, c: char) -> Seq<Seq<char>>
    decreases s.len(),
{
    if s.len() == 0 {
        seq![Seq::<char>::empty()]
    } else {
        let r = split_on(s.drop_last(), c);
        if s.last() == c {
            r.push(Seq::<char>::empty())
        } else {
            r.update(r.len() - 1, r.last().push(s.last()))
        }
    }
}

/// The binding an item `lane:identifier` names, if both parts are known.
pub open spec fn decode_item(item: Seq<char>) -> Option<(KeyCode, Lane)> {
    let p = find_char(item, ':');
    if p < item.len() {
        match (lane_named(item.take(p)), ident_lookup_from(item.skip(p + 1), 0)) {
            (Some(l), Some(k)) => Some((k, l)),
            _ => None,
        }
    } else {
        None
    }
}

/// `bs` without the bindings of key `k`, in order.
pub open spec fn drop_key(bs: Bindings, k: KeyCode) -> Bindings
    decreases bs.len(),
{
    if bs.len() == 0 {
        bs
    } else {
        let r = drop_key(bs.drop_last(), k);
        if bs.last().0 != k {
            r.push(bs.last())
        } else {
            r
        }
    }
}

/// Bindings after setting `k` to play `l` (the key's earlier binding dropped).
pub open spec fn set_binding(bs: Bindings, k: KeyCode, l: Lane) -> Bindings {
    drop_key(bs, k).push((k, l))
}

/// Bindings from decoding `items` in order, starting from none.
pub open spec fn apply_items(items: Seq<Seq<char>>) -> Bindings
    decreases items.len(),
{
    if items.len() == 0 {
        Seq::empty()
    } else {
        let b = apply_items(items.drop_last());
        match decode_item(items.last()) {
            Some((k, l)) => set_binding(b, k, l),
            None => b,
        }
    }
}

/// The custom bindings a text form decodes to.
pub open spec fn decoded(s: Seq<char>) -> Bindings {
    apply_items(split_on(s, ','))
}

/// The lane of the first binding of `k`.
fn lookup_lane(bs: &Vec<(KeyCode, Lane)>, k: KeyCode) -> (r: Option<Lane>)
    ensures
        r == bound_lane(bs@, k),
{
    let mut i: usize = 0;
    assert(bs@.skip(0) =~= bs@);
    while i < bs.len()
        invariant
            i <= bs@.len(),
            bound_lane(bs@, k) == bound_lane(bs@.skip(i as int), k),
        decreases bs@.len() - i,
    {
        assert(bs@.skip(i as int).drop_first() =~= bs@.skip(i + 1));
        if bs[i].0 == k {
            return Some(bs[i].1);
        }
        i = i + 1;
    }
    None
}

/// The first key bound to `l`.
fn lookup_key(bs: &Vec<(KeyCode, Lane)>, l: Lane) -> (r: Option<KeyCode>)
    ensures
        r == key_for(bs@, l),
{
    let mut i: usize = 0;
    assert(bs@.skip(0) =~= bs@);
    while i < bs.len()
        invariant
            i <= bs@.len(),
            key_for(bs@, l) == key_for(bs@.skip(i as int), l),
        decreases bs@.len() - i,
    {
        assert(bs@.skip(i as int).drop_first() =~= bs@.skip(i + 1));
        if bs[i].1 == l {
            return Some(bs[i].0);
        }
        i = i + 1;
    }
    None
}

/// The bindings of a built-in layout.
fn preset_vec(p: KeyPreset) -> (v: Vec<(KeyCode, Lane)>)
    ensures
        v@ == preset_bindings(p),
{
    let mut v: Vec<(KeyCode, Lane)> = Vec::new();
    if p == KeyPreset::HomeRow {
        v.push((KeyCode::ShiftLeft, Lane::Scratch));
        v.push((KeyCode::KeyS, Lane::Key1));
        v.push((KeyCode::KeyD, Lane::Key2));
        v.push((KeyCode::KeyF, Lane::Key3));
        v.push((KeyCode::Space, Lane::Key4));
        v.push((KeyCode::KeyJ, Lane::Key5));
        v.push((KeyCode::KeyK, Lane::Key6));
        v.push((KeyCode::KeyL, Lane::Key7));
    } else {
        v.push((KeyCode::ShiftLeft, Lane::Scratch));
        v.push((KeyCode::KeyZ, Lane::Key1));
        v.push((KeyCode::KeyS, Lane::Key2));
        v.push((KeyCode::KeyX, Lane::Key3));
        v.push((KeyCode::KeyD, Lane::Key4));
        v.push((KeyCode::KeyC, Lane::Key5));
        v.push((KeyCode::KeyF, Lane::Key6));
        v.push((KeyCode::KeyV, Lane::Key7));
    }
    assert(v@ =~= preset_bindings(p));
    v
}

impl InputConfig {
    /// The lane a key event plays, if any.
    pub fn map_key(&self, key: PhysicalKey) -> (r: Option<Lane>)
        ensures
            r == mapped_lane(self.preset, self.custom_bindings@, key),
    {
        let code = match key {
            PhysicalKey::Code(c) => c,
            PhysicalKey::Unidentified => {
                return None;
            },
        };
        if self.preset == KeyPreset::Custom {
            lookup_lane(&self.custom_bindings, code)
        } else if code == KeyCode::ControlLeft {
            Some(Lane::Scratch)
        } else {
            let v = preset_vec(self.preset);
            lookup_lane(&v, code)
        }
    }

    /// The label of the key that plays `lane` ("None" when no key does).
    pub fn get_key_name_for_lane(&self, lane: Lane) -> (r: String)
        ensures
            r@ == lane_key_name(self.preset, self.custom_bindings@, lane),
    {
        let found = if self.preset == KeyPreset::Custom {
            lookup_key(&self.custom_bindings, lane)
        } else {
            let v = preset_vec(self.preset);
            lookup_key(&v, lane)
        };
        match found {
            Some(k) => key_code_to_str(k).to_owned(),
            None => {
                proof {
                    reveal_strlit("None");
                }
                "None".to_owned()
            },
        }
    }

    /// The custom bindings as `Lane:Identifier` items joined by commas,
    /// lanes in order, the first key of each bound lane.
    pub fn serialize_bindings(&self) -> (r: String)
        ensures
            r@ == serialized(self.custom_bindings@),
    {
        let mut out = String::new();
        let mut n: usize = 0;
        let mut i: u8 = 0;
        while i < 8
            invariant
                i <= 8,
                n <= i,
                n == binding_parts(self.custom_bindings@, i as int).len(),
                out@ == join_commas(binding_parts(self.custom_bindings@, i as int)),
            decreases 8 - i,
        {
            let lane = lane_from_index(i);
            let ghost prev = binding_parts(self.custom_bindings@, i as int);
            match lookup_key(&self.custom_bindings, lane) {
                Some(k) => {
                    let ghost part = lane_name(lane) + seq![':'] + key_ident(k)@;
                    if n > 0 {
                        push_char(&mut out, ',');
                    }
                    out.append(lane_to_name(lane));
                    push_char(&mut out, ':');
                    out.append(key_code_to_identifier(k));
                    assert(prev.push(part).drop_last() =~= prev);
                    if n == 0 {
                        assert(prev.len() == 0);
                        assert(join_commas(prev) == Seq::<char>::empty());
                        assert(out@ =~= part);
                    } else {
                        assert(out@ =~= join_commas(prev) + seq![','] + part);
                    }
                    n = n + 1;
                },
                None => {},
            }
            i = i + 1;
        }
        out
    }
}


proof fn lemma_drop_key_props(bs: Bindings, k: KeyCode)
    requires
        keys_unique(bs),
    ensures
        keys_unique(drop_key(bs, k)),
        forall|i: int| 0 <= i < drop_key(bs, k).len() ==> {
            &&& (#[trigger] drop_key(bs, k)[i]).0 != k
            &&& bs.contains(drop_key(bs, k)[i])
        },
    decreases bs.len(),
{
    if bs.len() > 0 {
        let rest = bs.drop_last();
        assert(keys_unique(rest)) by {
            assert forall|i: int, j: int| 0 <= i < j < rest.len() implies (#[trigger] rest[i]).0 != (#[trigger] rest[j]).0 by {
                assert(rest[i] == bs[i] && rest[j] == bs[j]);
            }
        }
        lemma_drop_key_props(rest, k);
        let r = drop_key(rest, k);
        let e = bs.last();
        assert forall|i: int| 0 <= i < r.len() implies bs.contains(#[trigger] r[i]) by {
            assert(rest.contains(r[i]));
            let j = choose|j: int| 0 <= j < rest.len() && rest[j] == r[i];
            assert(bs[j] == r[i]);
        }
        if e.0 != k {
            let r2 = r.push(e);
            assert forall|i: int, j: int| 0 <= i < j < r2.len() implies (#[trigger] r2[i]).0 != (#[trigger] r2[j]).0 by {
                if j == r.len() {
                    assert(rest.contains(r[i]));
                    let m = choose|m: int| 0 <= m < rest.len() && rest[m] == r[i];
                    assert(bs[m] == r[i]);
                    assert(bs[bs.len() - 1] == e);
                } else {
                    assert(r2[i] == r[i] && r2[j] == r[j]);
                }
            }
            assert forall|i: int| 0 <= i < r2.len() implies bs.contains(#[trigger] r2[i]) by {
                if i == r.len() {
                    assert(bs[bs.len() - 1] == e);
                } else {
                    assert(r2[i] == r[i]);
                }
            }
        }
    }
}

proof fn lemma_set_binding_unique(bs: Bindings, k: KeyCode, l: Lane)
    requires
        keys_unique(bs),
    ensures
        keys_unique(set_binding(bs, k, l)),
{
    lemma_drop_key_props(bs, k);
    let f = drop_key(bs, k);
    let r = f.push((k, l));
    assert forall|i: int, j: int| 0 <= i < j < r.len() implies (#[trigger] r[i]).0 != (#[trigger] r[j]).0 by {
        if j == f.len() {
            assert(r[i] == f[i]);
        } else {
            assert(r[i] == f[i] && r[j] == f[j]);
        }
    }
}

/// Sets `k` to play `l` in `bs`.
fn set_binding_vec(bs: &mut Vec<(KeyCode, Lane)>, k: KeyCode, l: Lane)
    requires
        keys_unique(old(bs)@),
    ensures
        final(bs)@ == set_binding(old(bs)@, k, l),
        keys_unique(final(bs)@),
{
    let ghost base = bs@;
    let mut kept: Vec<(KeyCode, Lane)> = Vec::new();
    let mut i: usize = 0;
    assert(base.take(0) =~= Seq::<(KeyCode, Lane)>::empty());
    while i < bs.len()
        invariant
            i <= base.len(),
            base == bs@,
            kept@ == drop_key(base.take(i as int), k),
        decreases base.len() - i,
    {
        let e = bs[i];
        assert(base.take(i + 1).drop_last() =~= base.take(i as int));
        if e.0 != k {
            kept.push(e);
        }
        i = i + 1;
    }
    assert(base.take(base.len() as int) =~= base);
    proof {
        lemma_set_binding_unique(base, k, l);
    }
    kept.push((k, l));
    *bs = kept;
}

/// Applies the item `cs[a..b]` to `bs`.
fn apply_item(bs: &mut Vec<(KeyCode, Lane)>, cs: &Vec<char>, a: usize, b: usize)
    requires
        a <= b <= cs@.len(),
        keys_unique(old(bs)@),
    ensures
        keys_unique(final(bs)@),
        final(bs)@ == match decode_item(cs@.subrange(a as int, b as int)) {
            Some((k, l)) => set_binding(old(bs)@, k, l),
            None => old(bs)@,
        },
{
    let ghost item = cs@.subrange(a as int, b as int);
    let p = find_char_range(cs, a, b, ':');
    if p < b {
        assert(item.take(p - a) =~= cs@.subrange(a as int, p as int));
        assert(item.skip(p - a + 1) =~= cs@.subrange(p + 1, b as int));
        let name = string_of(cs, a, p);
        let ident = string_of(cs, p + 1, b);
        let lane = name_to_lane(name.as_str());
        let code = identifier_to_key_code(ident.as_str());
        match (lane, code) {
            (Some(l), Some(k)) => {
                set_binding_vec(bs, k, l);
            },
            _ => {},
        }
    }
}

impl InputConfig {
    /// Reads custom bindings back from their text form. Blank text changes
    /// nothing; otherwise the bindings become those the items name (a later
    /// item for the same key wins), and a non-empty result selects the
    /// custom layout.
    pub fn deserialize_bindings(&mut self, s: &str)
        requires
            old(self).wf(),
        ensures
            final(self).wf(),
            trim_chars(s@).len() == 0 ==> final(self).preset == old(self).preset
                && final(self).custom_bindings@ == old(self).custom_bindings@,
            trim_chars(s@).len() > 0 ==> final(self).custom_bindings@ == decoded(s@)
                && final(self).preset == (if decoded(s@).len() > 0 {
                KeyPreset::Custom
            } else {
                old(self).preset
            }),
    {
        let cs = chars_of(s);
        let (ta, tb) = trim_range(&cs, 0, cs.len());
        assert(cs@.subrange(0, cs@.len() as int) =~= cs@);
        if ta == tb {
            return;
        }
        let mut bs: Vec<(KeyCode, Lane)> = Vec::new();
        let mut start: usize = 0;
        let mut j: usize = 0;
        assert(cs@.take(0) =~= Seq::<char>::empty());
        assert(cs@.subrange(0, 0) =~= Seq::<char>::empty());
        while j < cs.len()
            invariant
                start <= j <= cs@.len(),
                split_on(cs@.take(j as int), ',').len() >= 1,
                split_on(cs@.take(j as int), ',').last() == cs@.subrange(start as int, j as int),
                bs@ == apply_items(split_on(cs@.take(j as int), ',').drop_last()),
                keys_unique(bs@),
            decreases cs@.len() - j,
        {
            let ghost r = split_on(cs@.take(j as int), ',');
            assert(cs@.take(j + 1).drop_last() =~= cs@.take(j as int));
            assert(cs@.take(j + 1).last() == cs@[j as int]);
            if cs[j] == ',' {
                apply_item(&mut bs, &cs, start, j);
                assert(split_on(cs@.take(j + 1), ',') == r.push(Seq::<char>::empty()));
                assert(r.push(Seq::<char>::empty()).drop_last() =~= r);
                start = j + 1;
                assert(cs@.subrange(start as int, j + 1) =~= Seq::<char>::empty());
            } else {
                let ghost r2 = r.update(r.len() - 1, r.last().push(cs@[j as int]));
                assert(split_on(cs@.take(j + 1), ',') == r2);
                assert(r2.drop_last() =~= r.drop_last());
                assert(r2.last() =~= cs@.subrange(start as int, j + 1));
            }
            j = j + 1;
        }
        assert(cs@.take(cs@.len() as int) =~= cs@);
        apply_item(&mut bs, &cs, start, cs.len());
        let nonempty = bs.len() > 0;
        self.custom_bindings = bs;
        if nonempty {
            self.preset = KeyPreset::Custom;
        }
    }
}


proof fn lemma_bound_lane_unique(bs: Bindings, k: KeyCode)
    requires
        keys_unique(bs),
    ensures
        forall|i: int| 0 <= i < bs.len() && (#[trigger] bs[i]).0 == k ==> bound_lane(bs, k) == Some(bs[i].1),
        (forall|i: int| 0 <= i < bs.len() ==> (#[trigger] bs[i]).0 != k) ==> bound_lane(bs, k) is None,
    decreases bs.len(),
{
    if bs.len() > 0 {
        let rest = bs.drop_first();
        assert(keys_unique(rest)) by {
            assert forall|i: int, j: int| 0 <= i < j < rest.len() implies (#[trigger] rest[i]).0 != (#[trigger] rest[j]).0 by {
                assert(rest[i] == bs[i + 1] && rest[j] == bs[j + 1]);
            }
        }
        lemma_bound_lane_unique(rest, k);
        assert forall|i: int| 0 <= i < bs.len() && (#[trigger] bs[i]).0 == k implies bound_lane(bs, k) == Some(bs[i].1) by {
            if i > 0 {
                assert(rest[i - 1] == bs[i]);
                assert(bs[0].0 != k);
            }
        }
        if forall|i: int| 0 <= i < bs.len() ==> (#[trigger] bs[i]).0 != k {
            assert forall|i: int| 0 <= i < rest.len() implies (#[trigger] rest[i]).0 != k by {
                assert(rest[i] == bs[i + 1]);
            }
            assert(bs[0].0 != k);
        }
    }
}

proof fn lemma_key_for_push(bs: Bindings, e: (KeyCode, Lane), l: Lane)
    requires
        forall|i: int| 0 <= i < bs.len() ==> (#[trigger] bs[i]).1 != l,
        e.1 == l,
    ensures
        key_for(bs.push(e), l) == Some(e.0),
    decreases bs.len(),
{
    if bs.len() > 0 {
        let rest = bs.drop_first();
        assert(bs.push(e).drop_first() =~= rest.push(e));
        assert forall|i: int| 0 <= i < rest.len() implies (#[trigger] rest[i]).1 != l by {
            assert(rest[i] == bs[i + 1]);
        }
        assert(bs[0].1 != l);
        lemma_key_for_push(rest, e, l);
    }
}

proof fn lemma_unbind_keeps(bs: Bindings, k: KeyCode, l: Lane)
    ensures
        forall|i: int| 0 <= i < bs.len() && (#[trigger] bs[i]).1 != l && bs[i].0 != k
            ==> unbind(bs, k, l).contains(bs[i]),
    decreases bs.len(),
{
    if bs.len() > 0 {
        let rest = bs.drop_last();
        lemma_unbind_keeps(rest, k, l);
        let r = unbind(rest, k, l);
        assert forall|i: int| 0 <= i < bs.len() && (#[trigger] bs[i]).1 != l && bs[i].0 != k
            implies unbind(bs, k, l).contains(bs[i]) by {
            if i < bs.len() - 1 {
                assert(rest[i] == bs[i]);
                assert(r.contains(bs[i]));
                let m = choose|m: int| 0 <= m < r.len() && r[m] == bs[i];
                if bs.last().1 != l && bs.last().0 != k {
                    assert(r.push(bs.last())[m] == bs[i]);
                }
            } else {
                assert(r.push(bs.last())[r.len() as int] == bs[i]);
            }
        }
    }
}

/// After `bind_key(k, l)` (on bindings `bs` without a key bound twice), `k`
/// plays `l`, `k` is the key shown for `l`, no other key plays `l`, and every
/// other key keeps the lane it had.
pub proof fn lemma_bind_key_effect(bs: Bindings, k: KeyCode, l: Lane, other: KeyCode)
    requires
        keys_unique(bs),
        other != k,
    ensures
        bound_lane(rebind(bs, k, l), k) == Some(l),
        key_for(rebind(bs, k, l), l) == Some(k),
        bound_lane(rebind(bs, k, l), other) == (if bound_lane(bs, other) == Some(l) {
            None
        } else {
            bound_lane(bs, other)
        }),
{
    lemma_rebind_unique(bs, k, l);
    lemma_unbind_props(bs, k, l);
    lemma_unbind_keeps(bs, k, l);
    let f = unbind(bs, k, l);
    let r = rebind(bs, k, l);
    lemma_bound_lane_unique(r, k);
    lemma_bound_lane_unique(r, other);
    lemma_bound_lane_unique(bs, other);
    assert(r[f.len() as int] == (k, l));
    lemma_key_for_push(f, (k, l), l);
    if exists|i: int| 0 <= i < bs.len() && (#[trigger] bs[i]).0 == other {
        let i = choose|i: int| 0 <= i < bs.len() && (#[trigger] bs[i]).0 == other;
        if bs[i].1 != l {
            assert(f.contains(bs[i]));
            let m = choose|m: int| 0 <= m < f.len() && f[m] == bs[i];
            assert(r[m] == bs[i]);
        } else {
            assert forall|j: int| 0 <= j < r.len() implies (#[trigger] r[j]).0 != other by {
                if j < f.len() {
                    assert(r[j] == f[j]);
                    assert(bs.contains(f[j]));
                    let m = choose|m: int| 0 <= m < bs.len() && bs[m] == f[j];
                    if f[j].0 == other {
                        assert(m == i);
                    }
                }
            }
        }
    } else {
        assert forall|j: int| 0 <= j < r.len() implies (#[trigger] r[j]).0 != other by {
            if j < f.len() {
                assert(r[j] == f[j]);
                assert(bs.contains(f[j]));
                let m = choose|m: int| 0 <= m < bs.len() && bs[m] == f[j];
                assert(bs[m].0 != other);
            }
        }
    }
}

impl Default for InputConfig {
    fn default() -> (c: Self)
        ensures
            c.wf(),
            c.preset == KeyPreset::HomeRow,
            c.custom_bindings@ == Seq::<(KeyCode, Lane)>::empty(),
    {
        InputConfig::new(KeyPreset::HomeRow)
    }
}

/// No two bindings share a lane.
pub open spec fn lanes_unique(bs: Bindings) -> bool {
    forall|i: int, j: int| 0 <= i < j < bs.len() ==> (#[trigger] bs[i]).1 != (#[trigger] bs[j]).1
}

/// Every bound key has an identifier.
pub open spec fn keys_named(bs: Bindings) -> bool {
    forall|i: int| 0 <= i < bs.len() ==> key_index((#[trigger] bs[i]).0) < NAMED_KEYS
}

/// The first key of each of the first `n` lanes that has one, with its lane.
pub open spec fn binding_pairs(bs: Bindings, n: int) -> Bindings
    decreases n,
{
    if n <= 0 {
        Seq::empty()
    } else {
        let prev = binding_pairs(bs, n - 1);
        match key_for(bs, lane_at(n - 1)) {
            Some(k) => prev.push((k, lane_at(n - 1))),
            None => prev,
        }
    }
}

/// The text item of one binding.
pub open spec fn encode_binding(e: (KeyCode, Lane)) -> Seq<char> {
    lane_name(e.1) + seq![':'] + key_ident(e.0)@
}

proof fn lemma_parts_are_pairs(bs: Bindings, n: int)
    requires
        0 <= n,
    ensures
        binding_parts(bs, n) == binding_pairs(bs, n).map_values(|e: (KeyCode, Lane)| encode_binding(e)),
    decreases n,
{
    if n > 0 {
        lemma_parts_are_pairs(bs, n - 1);
        let prev = binding_pairs(bs, n - 1);
        match key_for(bs, lane_at(n - 1)) {
            Some(k) => {
                assert(prev.push((k, lane_at(n - 1))).map_values(|e: (KeyCode, Lane)| encode_binding(e))
                    =~= prev.map_values(|e: (KeyCode, Lane)| encode_binding(e)).push(
                    encode_binding((k, lane_at(n - 1))),
                ));
            },
            None => {},
        }
    }
}

proof fn lemma_split_plain(x: Seq<char>)
    requires
        !x.contains(','),
    ensures
        split_on(x, ',') == seq![x],
    decreases x.len(),
{
    if x.len() > 0 {
        let t = x.drop_last();
        assert(!t.contains(',')) by {
            if t.contains(',') {
                let m = choose|m: int| 0 <= m < t.len() && t[m] == ',';
                assert(x[m] == ',');
            }
        }
        lemma_split_plain(t);
        assert(x[x.len() - 1] != ',');
        assert(t.push(x.last()) =~= x);
        assert(seq![t].update(0, t.push(x.last())) =~= seq![x]);
    } else {
        assert(x =~= Seq::<char>::empty());
    }
}

proof fn lemma_split_append(a: Seq<char>, b: Seq<char>)
    requires
        !b.contains(','),
    ensures
        split_on(a + seq![','] + b, ',') == split_on(a, ',').push(b),
    decreases b.len(),
{
    let s = a + seq![','] + b;
    if b.len() == 0 {
        assert(s.drop_last() =~= a);
        assert(b =~= Seq::<char>::empty());
    } else {
        let b2 = b.drop_last();
        assert(!b2.contains(',')) by {
            if b2.contains(',') {
                let m = choose|m: int| 0 <= m < b2.len() && b2[m] == ',';
                assert(b[m] == ',');
            }
        }
        lemma_split_append(a, b2);
        assert(s.drop_last() =~= a + seq![','] + b2);
        assert(s.last() == b[b.len() - 1]);
        let r = split_on(a, ',').push(b2);
        assert(r.last() == b2);
        assert(b2.push(b[b.len() - 1]) =~= b);
        assert(r.update(r.len() - 1, r.last().push(s.last())) =~= split_on(a, ',').push(b));
    }
}

proof fn lemma_split_join(parts: Seq<Seq<char>>)
    requires
        parts.len() >= 1,
        forall|i: int| 0 <= i < parts.len() ==> !(#[trigger] parts[i]).contains(','),
    ensures
        split_on(join_commas(parts), ',') == parts,
    decreases parts.len(),
{
    if parts.len() == 1 {
        lemma_split_plain(parts[0]);
        assert(seq![parts[0]] =~= parts);
    } else {
        let p = parts.drop_last();
        assert forall|i: int| 0 <= i < p.len() implies !(#[trigger] p[i]).contains(',') by {
            assert(p[i] == parts[i]);
        }
        lemma_split_join(p);
        assert(!parts[parts.len() - 1].contains(','));
        lemma_split_append(join_commas(p), parts.last());
        assert(p.push(parts.last()) =~= parts);
    }
}

proof fn lemma_find_char_after(a: Seq<char>, rest: Seq<char>, c: char)
    requires
        !a.contains(c),
    ensures
        find_char(a + seq![c] + rest, c) == a.len(),
    decreases a.len(),
{
    let s = a + seq![c] + rest;
    if a.len() > 0 {
        let a2 = a.drop_first();
        assert(!a2.contains(c)) by {
            if a2.contains(c) {
                let m = choose|m: int| 0 <= m < a2.len() && a2[m] == c;
                assert(a[m + 1] == c);
            }
        }
        assert(s.drop_first() =~= a2 + seq![c] + rest);
        assert(s[0] == a[0]);
        assert(a[0] != c);
        lemma_find_char_after(a2, rest, c);
    } else {
        assert(s[0] == c);
    }
}

proof fn lemma_lane_name_plain(l: Lane)
    ensures
        !lane_name(l).contains(':'),
        !lane_name(l).contains(','),
        lane_name(l).len() > 0,
        lane_name(l)[0] == 'S' || lane_name(l)[0] == 'K',
{
}

proof fn lemma_decode_encoded(e: (KeyCode, Lane))
    requires
        key_index(e.0) < NAMED_KEYS,
    ensures
        decode_item(encode_binding(e)) == Some(e),
        !encode_binding(e).contains(','),
{
    let (k, l) = e;
    let name = lane_name(l);
    let ident = key_ident(k)@;
    let item = encode_binding(e);
    lemma_lane_name_plain(l);
    lemma_find_char_after(name, ident, ':');
    assert(item.take(name.len() as int) =~= name);
    assert(item.skip(name.len() as int + 1) =~= ident);
    crate::ui::lemma_lane_name_roundtrip(l);
    lemma_identifier_roundtrip(k);
    lemma_key_index(k);
    lemma_ident_plain(key_index(k));
    assert(!item.contains(',')) by {
        if item.contains(',') {
            let m = choose|m: int| 0 <= m < item.len() && item[m] == ',';
            if m < name.len() {
                assert(name[m] == ',');
            } else if m > name.len() {
                assert(ident[m - name.len() - 1] == ',');
            }
        }
    }
}

proof fn lemma_drop_key_absent(bs: Bindings, k: KeyCode)
    requires
        forall|i: int| 0 <= i < bs.len() ==> (#[trigger] bs[i]).0 != k,
    ensures
        drop_key(bs, k) == bs,
    decreases bs.len(),
{
    if bs.len() > 0 {
        let t = bs.drop_last();
        assert forall|i: int| 0 <= i < t.len() implies (#[trigger] t[i]).0 != k by {
            assert(t[i] == bs[i]);
        }
        lemma_drop_key_absent(t, k);
        assert(bs[bs.len() - 1].0 != k);
        assert(t.push(bs.last()) =~= bs);
    }
}

proof fn lemma_apply_encoded(es: Bindings)
    requires
        keys_unique(es),
        keys_named(es),
    ensures
        apply_items(es.map_values(|e: (KeyCode, Lane)| encode_binding(e))) == es,
    decreases es.len(),
{
    let items = es.map_values(|e: (KeyCode, Lane)| encode_binding(e));
    if es.len() > 0 {
        let t = es.drop_last();
        assert(keys_unique(t)) by {
            assert forall|i: int, j: int| 0 <= i < j < t.len() implies (#[trigger] t[i]).0 != (#[trigger] t[j]).0 by {
                assert(t[i] == es[i] && t[j] == es[j]);
            }
        }
        assert(keys_named(t)) by {
            assert forall|i: int| 0 <= i < t.len() implies key_index((#[trigger] t[i]).0) < NAMED_KEYS by {
                assert(t[i] == es[i]);
            }
        }
        lemma_apply_encoded(t);
        assert(items.drop_last() =~= t.map_values(|e: (KeyCode, Lane)| encode_binding(e)));
        let e = es[es.len() - 1];
        assert(items.last() == encode_binding(e));
        assert(key_index(e.0) < NAMED_KEYS);
        lemma_decode_encoded(e);
        assert forall|i: int| 0 <= i < t.len() implies (#[trigger] t[i]).0 != e.0 by {
            assert(t[i] == es[i]);
        }
        lemma_drop_key_absent(t, e.0);
        assert(t.push((e.0, e.1)) =~= es);
    } else {
        assert(items =~= Seq::<Seq<char>>::empty());
        assert(es =~= Seq::<(KeyCode, Lane)>::empty());
    }
}

proof fn lemma_key_for_unique(bs: Bindings, l: Lane)
    requires
        lanes_unique(bs),
    ensures
        forall|i: int| 0 <= i < bs.len() && (#[trigger] bs[i]).1 == l ==> key_for(bs, l) == Some(bs[i].0),
        (forall|i: int| 0 <= i < bs.len() ==> (#[trigger] bs[i]).1 != l) ==> key_for(bs, l) is None,
    decreases bs.len(),
{
    if bs.len() > 0 {
        let rest = bs.drop_first();
        assert(lanes_unique(rest)) by {
            assert forall|i: int, j: int| 0 <= i < j < rest.len() implies (#[trigger] rest[i]).1 != (#[trigger] rest[j]).1 by {
                assert(rest[i] == bs[i + 1] && rest[j] == bs[j + 1]);
            }
        }
        lemma_key_for_unique(rest, l);
        assert forall|i: int| 0 <= i < bs.len() && (#[trigger] bs[i]).1 == l implies key_for(bs, l) == Some(bs[i].0) by {
            if i > 0 {
                assert(rest[i - 1] == bs[i]);
                assert(bs[0].1 != l);
            }
        }
        if forall|i: int| 0 <= i < bs.len() ==> (#[trigger] bs[i]).1 != l {
            assert forall|i: int| 0 <= i < rest.len() implies (#[trigger] rest[i]).1 != l by {
                assert(rest[i] == bs[i + 1]);
            }
            assert(bs[0].1 != l);
        }
    }
}

proof fn lemma_binding_pairs(bs: Bindings, n: int)
    requires
        0 <= n <= 8,
        keys_unique(bs),
        lanes_unique(bs),
    ensures
        forall|i: int| 0 <= i < binding_pairs(bs, n).len() ==> {
            &&& bs.contains(#[trigger] binding_pairs(bs, n)[i])
            &&& crate::bms::lane_rank(binding_pairs(bs, n)[i].1) < n
        },
        forall|i: int, j: int| 0 <= i < j < binding_pairs(bs, n).len() ==> crate::bms::lane_rank(
            (#[trigger] binding_pairs(bs, n)[i]).1,
        ) < crate::bms::lane_rank((#[trigger] binding_pairs(bs, n)[j]).1),
        forall|i: int| 0 <= i < bs.len() && crate::bms::lane_rank((#[trigger] bs[i]).1) < n
            ==> binding_pairs(bs, n).contains(bs[i]),
    decreases n,
{
    if n > 0 {
        lemma_binding_pairs(bs, n - 1);
        let prev = binding_pairs(bs, n - 1);
        let l = lane_at(n - 1);
        assert(crate::bms::lane_rank(l) == n - 1);
        lemma_key_for_unique(bs, l);
        match key_for(bs, l) {
            Some(k) => {
                let cur = prev.push((k, l));
                assert(bs.contains((k, l))) by {
                    if forall|i: int| 0 <= i < bs.len() ==> (#[trigger] bs[i]).1 != l {
                    } else {
                        let i = choose|i: int| 0 <= i < bs.len() && (#[trigger] bs[i]).1 == l;
                        assert(bs[i] == (k, l));
                    }
                }
                assert forall|i: int| 0 <= i < cur.len() implies {
                    &&& bs.contains(#[trigger] cur[i])
                    &&& crate::bms::lane_rank(cur[i].1) < n
                } by {
                    if i < prev.len() {
                        assert(cur[i] == prev[i]);
                    }
                }
                assert forall|i: int, j: int| 0 <= i < j < cur.len() implies crate::bms::lane_rank(
                    (#[trigger] cur[i]).1,
                ) < crate::bms::lane_rank((#[trigger] cur[j]).1) by {
                    assert(cur[i] == prev[i]);
                    if j < prev.len() {
                        assert(cur[j] == prev[j]);
                    }
                }
                assert forall|i: int| 0 <= i < bs.len() && crate::bms::lane_rank((#[trigger] bs[i]).1) < n
                    implies cur.contains(bs[i]) by {
                    if crate::bms::lane_rank(bs[i].1) < n - 1 {
                        assert(prev.contains(bs[i]));
                        let m = choose|m: int| 0 <= m < prev.len() && prev[m] == bs[i];
                        assert(cur[m] == bs[i]);
                    } else {
                        assert(bs[i].1 == l);
                        assert(cur[prev.len() as int] == bs[i]);
                    }
                }
            },
            None => {
                assert forall|i: int| 0 <= i < bs.len() && crate::bms::lane_rank((#[trigger] bs[i]).1) < n
                    implies prev.contains(bs[i]) by {
                    if crate::bms::lane_rank(bs[i].1) == n - 1 {
                        assert(bs[i].1 == l);
                    }
                }
            },
        }
    }
}

proof fn lemma_join_first(parts: Seq<Seq<char>>)
    requires
        parts.len() >= 1,
        parts[0].len() > 0,
    ensures
        join_commas(parts).len() > 0,
        join_commas(parts)[0] == parts[0][0],
    decreases parts.len(),
{
    if parts.len() > 1 {
        let p = parts.drop_last();
        assert(p[0] == parts[0]);
        lemma_join_first(p);
    }
}

proof fn lemma_trim_end_keeps_first(s: Seq<char>)
    requires
        s.len() > 0,
        !is_ws(s[0]),
    ensures
        trim_end_chars(s).len() > 0,
    decreases s.len(),
{
    if is_ws(s.last()) {
        assert(s.len() > 1);
        assert(s.drop_last()[0] == s[0]);
        lemma_trim_end_keeps_first(s.drop_last());
    }
}

/// Reading back the text form of custom bindings in which no key and no lane
/// is bound twice, and every key has an identifier, gives bindings that agree
/// on every key's lane and on every lane's key. The text is blank exactly
/// when there are no bindings.
pub proof fn lemma_bindings_text_roundtrip(bs: Bindings, k: KeyCode, l: Lane)
    requires
        keys_unique(bs),
        lanes_unique(bs),
        keys_named(bs),
    ensures
        bound_lane(decoded(serialized(bs)), k) == bound_lane(bs, k),
        key_for(decoded(serialized(bs)), l) == key_for(bs, l),
        trim_chars(serialized(bs)).len() > 0 <==> bs.len() > 0,
{
    let es = binding_pairs(bs, 8);
    let parts = binding_parts(bs, 8);
    lemma_binding_pairs(bs, 8);
    lemma_parts_are_pairs(bs, 8);
    assert forall|i: int| 0 <= i < bs.len() implies es.contains(#[trigger] bs[i]) by {
        assert(crate::bms::lane_rank(bs[i].1) < 8);
    }
    assert(keys_unique(es)) by {
        assert forall|i: int, j: int| 0 <= i < j < es.len() implies (#[trigger] es[i]).0 != (#[trigger] es[j]).0 by {
            assert(bs.contains(es[i]));
            assert(bs.contains(es[j]));
            let m = choose|m: int| 0 <= m < bs.len() && bs[m] == es[i];
            let n = choose|n: int| 0 <= n < bs.len() && bs[n] == es[j];
            assert(crate::bms::lane_rank(es[i].1) < crate::bms::lane_rank(es[j].1));
            if m < n {
                assert(bs[m].0 != bs[n].0);
            } else if n < m {
                assert(bs[n].0 != bs[m].0);
            }
        }
    }
    assert(lanes_unique(es)) by {
        assert forall|i: int, j: int| 0 <= i < j < es.len() implies (#[trigger] es[i]).1 != (#[trigger] es[j]).1 by {
            assert(crate::bms::lane_rank(es[i].1) < crate::bms::lane_rank(es[j].1));
        }
    }
    assert(keys_named(es)) by {
        assert forall|i: int| 0 <= i < es.len() implies key_index((#[trigger] es[i]).0) < NAMED_KEYS by {
            assert(bs.contains(es[i]));
            let m = choose|m: int| 0 <= m < bs.len() && bs[m] == es[i];
            assert(key_index(bs[m].0) < NAMED_KEYS);
        }
    }
    if es.len() == 0 {
        assert(parts =~= Seq::<Seq<char>>::empty());
        assert(serialized(bs) =~= Seq::<char>::empty());
        assert(split_on(Seq::<char>::empty(), ',') == seq![Seq::<char>::empty()]);
        let items = seq![Seq::<char>::empty()];
        assert(items.drop_last() =~= Seq::<Seq<char>>::empty());
        assert(items.last() == Seq::<char>::empty());
        assert(find_char(Seq::<char>::empty(), ':') == 0);
        assert(decode_item(Seq::<char>::empty()) is None);
        assert(apply_items(items) == apply_items(items.drop_last()));
        assert(decoded(serialized(bs)) =~= Seq::<(KeyCode, Lane)>::empty());
        if bs.len() > 0 {
            assert(es.contains(bs[0]));
        }
        assert(bs =~= Seq::<(KeyCode, Lane)>::empty());
    } else {
        assert forall|i: int| 0 <= i < parts.len() implies !(#[trigger] parts[i]).contains(',') by {
            assert(parts[i] == encode_binding(es[i]));
            lemma_decode_encoded(es[i]);
        }
        lemma_split_join(parts);
        lemma_apply_encoded(es);
        assert(decoded(serialized(bs)) == es);
        lemma_bound_lane_unique(es, k);
        lemma_bound_lane_unique(bs, k);
        lemma_key_for_unique(es, l);
        lemma_key_for_unique(bs, l);
        if exists|i: int| 0 <= i < bs.len() && (#[trigger] bs[i]).0 == k {
            let i = choose|i: int| 0 <= i < bs.len() && (#[trigger] bs[i]).0 == k;
            assert(es.contains(bs[i]));
            let m = choose|m: int| 0 <= m < es.len() && es[m] == bs[i];
            assert(es[m].0 == k);
        } else {
            assert forall|i: int| 0 <= i < es.len() implies (#[trigger] es[i]).0 != k by {
                assert(bs.contains(es[i]));
                let m = choose|m: int| 0 <= m < bs.len() && bs[m] == es[i];
                assert(bs[m].0 != k);
            }
        }
        if exists|i: int| 0 <= i < bs.len() && (#[trigger] bs[i]).1 == l {
            let i = choose|i: int| 0 <= i < bs.len() && (#[trigger] bs[i]).1 == l;
            assert(es.contains(bs[i]));
            let m = choose|m: int| 0 <= m < es.len() && es[m] == bs[i];
            assert(es[m].1 == l);
        } else {
            assert forall|i: int| 0 <= i < es.len() implies (#[trigger] es[i]).1 != l by {
                assert(bs.contains(es[i]));
                let m = choose|m: int| 0 <= m < bs.len() && bs[m] == es[i];
                assert(bs[m].1 != l);
            }
        }
        let text = serialized(bs);
        lemma_lane_name_plain(es[0].1);
        assert(parts[0] == encode_binding(es[0]));
        assert(parts[0][0] == lane_name(es[0].1)[0]);
        lemma_join_first(parts);
        assert(!is_ws(text[0]));
        assert(trim_start_chars(text) == text);
        lemma_trim_end_keeps_first(text);
        assert(bs.len() > 0) by {
            assert(bs.contains(es[0]));
        }
    }
}

/// The built-in layouts bind each key and each lane once, and binding a key
/// keeps every key and every lane bound at most once.
pub proof fn lemma_bind_keeps_lanes_unique(p: KeyPreset, bs: Bindings, k: KeyCode, l: Lane)
    requires
        keys_unique(bs),
        lanes_unique(bs),
    ensures
        lanes_unique(preset_bindings(p)),
        keys_unique(preset_bindings(p)),
        lanes_unique(bind_result(p, bs, k, l)),
        keys_unique(bind_result(p, bs, k, l)),
{
    let base = if p != KeyPreset::Custom && bs.len() == 0 {
        preset_bindings(p)
    } else {
        bs
    };
    lemma_unbind_props(base, k, l);
    lemma_rebind_unique(base, k, l);
    let f = unbind(base, k, l);
    let r = f.push((k, l));
    assert forall|i: int, j: int| 0 <= i < j < r.len() implies (#[trigger] r[i]).1 != (#[trigger] r[j]).1 by {
        assert(r[i] == f[i]);
        if j < f.len() {
            assert(r[j] == f[j]);
            assert(base.contains(f[i]) && base.contains(f[j]));
            let m = choose|m: int| 0 <= m < base.len() && base[m] == f[i];
            let n = choose|n: int| 0 <= n < base.len() && base[n] == f[j];
            assert(f[i].0 != f[j].0);
            if m < n {
                assert(base[m].1 != base[n].1);
            } else if n < m {
                assert(base[n].1 != base[m].1);
            }
        }
    }
}

/// The bindings `bind_key` starts from: the custom ones, or the layout's own
/// when the first custom binding is made under a built-in layout.
pub open spec fn bind_base(p: KeyPreset, bs: Bindings) -> Bindings {
    if p != KeyPreset::Custom && bs.len() == 0 {
        preset_bindings(p)
    } else {
        bs
    }
}

/// The whole effect of `bind_key(key, lane)` on a configuration with layout
/// `p` and custom bindings `bs` in which no key and no lane is bound twice.
/// Afterwards the layout is custom; `key` plays `lane` and is the key shown
/// for `lane`; every other key plays the lane it had in the bindings the
/// call starts from (the layout's own on the first custom binding), except
/// that the key that had `lane` now plays nothing; and still no key and no
/// lane is bound twice. On that first binding the starting bindings are the
/// layout's, which play every key as the layout does (but for the second
/// scratch key, left control, which is not one of them).
pub proof fn lemma_bind_key_law(p: KeyPreset, bs: Bindings, key: KeyCode, lane: Lane, other: KeyCode)
    requires
        keys_unique(bs),
        lanes_unique(bs),
    ensures
        bind_result(p, bs, key, lane) == rebind(bind_base(p, bs), key, lane),
        mapped_lane(KeyPreset::Custom, bind_result(p, bs, key, lane), PhysicalKey::Code(key)) == Some(lane),
        key_for(bind_result(p, bs, key, lane), lane) == Some(key),
        other != key ==> mapped_lane(KeyPreset::Custom, bind_result(p, bs, key, lane), PhysicalKey::Code(other)) == (
        if bound_lane(bind_base(p, bs), other) == Some(lane) {
            None
        } else {
            bound_lane(bind_base(p, bs), other)
        }),
        p == KeyPreset::Custom ==> bound_lane(bind_base(p, bs), other) == mapped_lane(p, bs, PhysicalKey::Code(other)),
        p != KeyPreset::Custom && bs.len() == 0 && other != KeyCode::ControlLeft ==> bound_lane(bind_base(p, bs), other)
            == mapped_lane(p, bs, PhysicalKey::Code(other)),
        keys_unique(bind_result(p, bs, key, lane)),
        lanes_unique(bind_result(p, bs, key, lane)),
{
    lemma_bind_keeps_lanes_unique(p, bs, key, lane);
    let base = bind_base(p, bs);
    assert(keys_unique(base));
    if other != key {
        lemma_bind_key_effect(base, key, lane, other);
    } else {
        let o = if key == KeyCode::KeyA { KeyCode::KeyB } else { KeyCode::KeyA };
        lemma_bind_key_effect(base, key, lane, o);
    }
}

} // verus!
