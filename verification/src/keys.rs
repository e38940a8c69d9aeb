use vstd::prelude::*;

verus! {

/// The physical keys whose names scripts can see; every other key is `Other`.
#[derive(Clone, Copy, Debug, PartialEq, Eq, Structural, Hash)]
pub enum KeyCode {
    Numpad0,
    Numpad1,
    Numpad2,
    Numpad3,
    Numpad4,
    Numpad5,
    Numpad6,
    Numpad7,
    Numpad8,
    Numpad9,
    NumpadDecimal,
    NumpadDivide,
    NumpadMultiply,
    NumpadSubtract,
    NumpadAdd,
    NumpadEqual,
    NumpadEnter,
    Backquote,
    Backslash,
    IntlBackslash,
    BracketLeft,
    BracketRight,
    Comma,
    Digit0,
    Digit1,
    Digit2,
    Digit3,
    Digit4,
    Digit5,
    Digit6,
    Digit7,
    Digit8,
    Digit9,
    Equal,
    KeyA,
    KeyB,
    KeyC,
    KeyD,
    KeyE,
    KeyF,
    KeyG,
    KeyH,
    KeyI,
    KeyJ,
    KeyK,
    KeyL,
    KeyM,
    KeyN,
    KeyO,
    KeyP,
    KeyQ,
    KeyR,
    KeyS,
    KeyT,
    KeyU,
    KeyV,
    KeyW,
    KeyX,
    KeyY,
    KeyZ,
    Minus,
    Period,
    Quote,
    Semicolon,
    Slash,
    Space,
    Escape,
    Tab,
    Backspace,
    Pause,
    Delete,
    Enter,
    ArrowUp,
    ArrowDown,
    ArrowRight,
    ArrowLeft,
    Insert,
    Home,
    End,
    PageUp,
    PageDown,
    F1,
    F2,
    F3,
    F4,
    F5,
    F6,
    F7,
    F8,
    F9,
    F10,
    F11,
    F12,
    NumLock,
    CapsLock,
    ScrollLock,
    AltRight,
    Help,
    PrintScreen,
    ContextMenu,
    Power,
    ControlLeft,
    ControlRight,
    ShiftLeft,
    ShiftRight,
    AltLeft,
    SuperLeft,
    SuperRight,
    Meta,
    Other,
}

/// What the layout makes of a key: typed text, or some named key.
#[derive(Clone, Debug)]
pub enum LogicalKey {
    Character(String),
    Other,
}

/// One keyboard event, as the window reports it.
#[derive(Clone, Debug)]
pub struct KeyInput {
    pub key_code: KeyCode,
    pub logical_key: LogicalKey,
    pub text: Option<String>,
    pub pressed: bool,
}

/// The name of a keypad key, or the empty text for any other key.
pub open spec fn numpad_name(k: KeyCode) -> Seq<char> {
    match k {
        KeyCode::Numpad0 => "[0]"@,
        KeyCode::Numpad1 => "[1]"@,
        KeyCode::Numpad2 => "[2]"@,
        KeyCode::Numpad3 => "[3]"@,
        KeyCode::Numpad4 => "[4]"@,
        KeyCode::Numpad5 => "[5]"@,
        KeyCode::Numpad6 => "[6]"@,
        KeyCode::Numpad7 => "[7]"@,
        KeyCode::Numpad8 => "[8]"@,
        KeyCode::Numpad9 => "[9]"@,
        KeyCode::NumpadDecimal => "[.]"@,
        KeyCode::NumpadDivide => "[/]"@,
        KeyCode::NumpadMultiply => "[*]"@,
        KeyCode::NumpadSubtract => "[-]"@,
        KeyCode::NumpadAdd => "[+]"@,
        KeyCode::NumpadEqual => "equals"@,
        KeyCode::NumpadEnter => "enter"@,
        _ => ""@,
    }
}

/// The name of a key by its position on the keyboard; `unknown` for keys with no name.
pub open spec fn position_name(k: KeyCode) -> Seq<char> {
    match k {
        KeyCode::Backquote => "`"@,
        KeyCode::Backslash => "\\"@,
        KeyCode::IntlBackslash => "\\"@,
        KeyCode::BracketLeft => "["@,
        KeyCode::BracketRight => "]"@,
        KeyCode::Comma => ","@,
        KeyCode::Digit0 => "0"@,
        KeyCode::Digit1 => "1"@,
        KeyCode::Digit2 => "2"@,
        KeyCode::Digit3 => "3"@,
        KeyCode::Digit4 => "4"@,
        KeyCode::Digit5 => "5"@,
        KeyCode::Digit6 => "6"@,
        KeyCode::Digit7 => "7"@,
        KeyCode::Digit8 => "8"@,
        KeyCode::Digit9 => "9"@,
        KeyCode::Equal => "="@,
        KeyCode::KeyA => "a"@,
        KeyCode::KeyB => "b"@,
        KeyCode::KeyC => "c"@,
        KeyCode::KeyD => "d"@,
        KeyCode::KeyE => "e"@,
        KeyCode::KeyF => "f"@,
        KeyCode::KeyG => "g"@,
        KeyCode::KeyH => "h"@,
        KeyCode::KeyI => "i"@,
        KeyCode::KeyJ => "j"@,
        KeyCode::KeyK => "k"@,
        KeyCode::KeyL => "l"@,
        KeyCode::KeyM => "m"@,
        KeyCode::KeyN => "n"@,
        KeyCode::KeyO => "o"@,
        KeyCode::KeyP => "p"@,
        KeyCode::KeyQ => "q"@,
        KeyCode::KeyR => "r"@,
        KeyCode::KeyS => "s"@,
        KeyCode::KeyT => "t"@,
        KeyCode::KeyU => "u"@,
        KeyCode::KeyV => "v"@,
        KeyCode::KeyW => "w"@,
        KeyCode::KeyX => "x"@,
        KeyCode::KeyY => "y"@,
        KeyCode::KeyZ => "z"@,
        KeyCode::Minus => "-"@,
        KeyCode::Period => "."@,
        KeyCode::Quote => "'"@,
        KeyCode::Semicolon => ";"@,
        KeyCode::Slash => "/"@,
        KeyCode::Space => " "@,
        KeyCode::Escape => "escape"@,
        KeyCode::Tab => "tab"@,
        KeyCode::Backspace => "backspace"@,
        KeyCode::Pause => "pause"@,
        KeyCode::Delete => "delete"@,
        KeyCode::Enter => "enter"@,
        KeyCode::ArrowUp => "up"@,
        KeyCode::ArrowDown => "down"@,
        KeyCode::ArrowRight => "right"@,
        KeyCode::ArrowLeft => "left"@,
        KeyCode::Insert => "insert"@,
        KeyCode::Home => "home"@,
        KeyCode::End => "end"@,
        KeyCode::PageUp => "page_up"@,
        KeyCode::PageDown => "page_down"@,
        KeyCode::F1 => "f1"@,
        KeyCode::F2 => "f2"@,
        KeyCode::F3 => "f3"@,
        KeyCode::F4 => "f4"@,
        KeyCode::F5 => "f5"@,
        KeyCode::F6 => "f6"@,
        KeyCode::F7 => "f7"@,
        KeyCode::F8 => "f8"@,
        KeyCode::F9 => "f9"@,
        KeyCode::F10 => "f10"@,
        KeyCode::F11 => "f11"@,
        KeyCode::F12 => "f12"@,
        KeyCode::NumLock => "numlock"@,
        KeyCode::CapsLock => "caps_lock"@,
        KeyCode::ScrollLock => "scroll_lock"@,
        KeyCode::AltRight => "alt_graph"@,
        KeyCode::Help => "help"@,
        KeyCode::PrintScreen => "print_screen"@,
        KeyCode::ContextMenu => "menu"@,
        KeyCode::Power => "power"@,
        KeyCode::ControlLeft => "ctrl"@,
        KeyCode::ControlRight => "ctrl"@,
        KeyCode::ShiftLeft => "shift"@,
        KeyCode::ShiftRight => "shift"@,
        KeyCode::AltLeft => "alt"@,
        KeyCode::SuperLeft => "meta"@,
        KeyCode::SuperRight => "meta"@,
        KeyCode::Meta => "meta"@,
        _ => "unknown"@,
    }
}

fn numpad_str(k: KeyCode) -> (r: &'static str)
    ensures
        r@ == numpad_name(k),
{
    match k {
        KeyCode::Numpad0 => "[0]",
        KeyCode::Numpad1 => "[1]",
        KeyCode::Numpad2 => "[2]",
        KeyCode::Numpad3 => "[3]",
        KeyCode::Numpad4 => "[4]",
        KeyCode::Numpad5 => "[5]",
        KeyCode::Numpad6 => "[6]",
        KeyCode::Numpad7 => "[7]",
        KeyCode::Numpad8 => "[8]",
        KeyCode::Numpad9 => "[9]",
        KeyCode::NumpadDecimal => "[.]",
        KeyCode::NumpadDivide => "[/]",
        KeyCode::NumpadMultiply => "[*]",
        KeyCode::NumpadSubtract => "[-]",
        KeyCode::NumpadAdd => "[+]",
        KeyCode::NumpadEqual => "equals",
        KeyCode::NumpadEnter => "enter",
        _ => "",
    }
}

fn position_str(k: KeyCode) -> (r: &'static str)
    ensures
        r@ == position_name(k),
{
    match k {
        KeyCode::Backquote => "`",
        KeyCode::Backslash => "\\",
        KeyCode::IntlBackslash => "\\",
        KeyCode::BracketLeft => "[",
        KeyCode::BracketRight => "]",
        KeyCode::Comma => ",",
        KeyCode::Digit0 => "0",
        KeyCode::Digit1 => "1",
        KeyCode::Digit2 => "2",
        KeyCode::Digit3 => "3",
        KeyCode::Digit4 => "4",
        KeyCode::Digit5 => "5",
        KeyCode::Digit6 => "6",
        KeyCode::Digit7 => "7",
        KeyCode::Digit8 => "8",
        KeyCode::Digit9 => "9",
        KeyCode::Equal => "=",
        KeyCode::KeyA => "a",
        KeyCode::KeyB => "b",
        KeyCode::KeyC => "c",
        KeyCode::KeyD => "d",
        KeyCode::KeyE => "e",
        KeyCode::KeyF => "f",
        KeyCode::KeyG => "g",
        KeyCode::KeyH => "h",
        KeyCode::KeyI => "i",
        KeyCode::KeyJ => "j",
        KeyCode::KeyK => "k",
        KeyCode::KeyL => "l",
        KeyCode::KeyM => "m",
        KeyCode::KeyN => "n",
        KeyCode::KeyO => "o",
        KeyCode::KeyP => "p",
        KeyCode::KeyQ => "q",
        KeyCode::KeyR => "r",
        KeyCode::KeyS => "s",
        KeyCode::KeyT => "t",
        KeyCode::KeyU => "u",
        KeyCode::KeyV => "v",
        KeyCode::KeyW => "w",
        KeyCode::KeyX => "x",
        KeyCode::KeyY => "y",
        KeyCode::KeyZ => "z",
        KeyCode::Minus => "-",
        KeyCode::Period => ".",
        KeyCode::Quote => "'",
        KeyCode::Semicolon => ";",
        KeyCode::Slash => "/",
        KeyCode::Space => " ",
        KeyCode::Escape => "escape",
        KeyCode::Tab => "tab",
        KeyCode::Backspace => "backspace",
        KeyCode::Pause => "pause",
        KeyCode::Delete => "delete",
        KeyCode::Enter => "enter",
        KeyCode::ArrowUp => "up",
        KeyCode::ArrowDown => "down",
        KeyCode::ArrowRight => "right",
        KeyCode::ArrowLeft => "left",
        KeyCode::Insert => "insert",
        KeyCode::Home => "home",
        KeyCode::End => "end",
        KeyCode::PageUp => "page_up",
        KeyCode::PageDown => "page_down",
        KeyCode::F1 => "f1",
        KeyCode::F2 => "f2",
        KeyCode::F3 => "f3",
        KeyCode::F4 => "f4",
        KeyCode::F5 => "f5",
        KeyCode::F6 => "f6",
        KeyCode::F7 => "f7",
        KeyCode::F8 => "f8",
        KeyCode::F9 => "f9",
        KeyCode::F10 => "f10",
        KeyCode::F11 => "f11",
        KeyCode::F12 => "f12",
        KeyCode::NumLock => "numlock",
        KeyCode::CapsLock => "caps_lock",
        KeyCode::ScrollLock => "scroll_lock",
        KeyCode::AltRight => "alt_graph",
        KeyCode::Help => "help",
        KeyCode::PrintScreen => "print_screen",
        KeyCode::ContextMenu => "menu",
        KeyCode::Power => "power",
        KeyCode::ControlLeft => "ctrl",
        KeyCode::ControlRight => "ctrl",
        KeyCode::ShiftLeft => "shift",
        KeyCode::ShiftRight => "shift",
        KeyCode::AltLeft => "alt",
        KeyCode::SuperLeft => "meta",
        KeyCode::SuperRight => "meta",
        KeyCode::Meta => "meta",
        _ => "unknown",
    }
}
/// What `str::to_lowercase` makes of a text (the Unicode lower-case mapping).
pub uninterp spec fn lowercase(s: Seq<char>) -> Seq<char>;

/// `str::to_lowercase`: the text with every character replaced by its Unicode lower-case
/// mapping. Only the name of the result is claimed here.
#[verifier::external_body]
fn str_lowercase(s: &str) -> (r: String)
    ensures
        r@ == lowercase(s@),
{
    s.to_lowercase()
}

/// The name scripts see for a key: keypad keys by their bracketed names, then a key that
/// types one character by that character in lower case, then the key's own name.
pub open spec fn key_name(input: KeyInput) -> Seq<char> {
    if numpad_name(input.key_code).len() > 0 {
        numpad_name(input.key_code)
    } else {
        match input.logical_key {
            LogicalKey::Character(t) if t@.len() == 1 => lowercase(t@),
            _ => position_name(input.key_code),
        }
    }
}

/// The text a key event typed: its text, else the character its logical key stands for.
pub open spec fn typed_text(input: KeyInput) -> Option<Seq<char>> {
    match input.text {
        Some(t) => Some(t@),
        None => match input.logical_key {
            LogicalKey::Character(t) => Some(t@),
            LogicalKey::Other => None,
        },
    }
}

/// The single character a key event typed, if it typed exactly one.
pub open spec fn typed_char(input: KeyInput) -> Option<Seq<char>> {
    match typed_text(input) {
        Some(t) if t.len() == 1 => Some(t),
        _ => None,
    }
}

/// The name a script's key handler receives for `input`.
pub fn key_code(input: &KeyInput) -> (r: String)
    ensures
        r@ == key_name(*input),
{
    let numpad = numpad_str(input.key_code);
    if numpad.unicode_len() > 0 {
        return numpad.to_owned();
    }
    if let LogicalKey::Character(text) = &input.logical_key {
        if text.as_str().unicode_len() == 1 {
            return str_lowercase(text.as_str());
        }
    }
    position_str(input.key_code).to_owned()
}

/// The character a script's key handler receives for `input`, when it typed one.
pub fn key_char(input: &KeyInput) -> (r: Option<String>)
    ensures
        match r {
            Some(s) => typed_char(*input) == Some(s@),
            None => typed_char(*input) is None,
        },
{
    let text: &str = match &input.text {
        Some(t) => t.as_str(),
        None => match &input.logical_key {
            LogicalKey::Character(t) => t.as_str(),
            LogicalKey::Other => {
                return None;
            },
        },
    };
    if text.unicode_len() == 1 {
        Some(text.to_owned())
    } else {
        None
    }
}

/// Law: what a key's name depends on. The name never depends on the event's text or on
/// whether the key went down; a keypad key's name depends only on the key; any other key
/// that types one character is named by that character in lower case, wherever it sits.
/// The typed character never depends on the physical key.
pub proof fn lemma_key_names_depend_on_the_right_parts(a: KeyInput, b: KeyInput)
    ensures
        (a.key_code == b.key_code && a.logical_key == b.logical_key) ==> key_name(a) == key_name(b),
        (a.key_code == b.key_code && numpad_name(a.key_code).len() > 0) ==> key_name(a) == key_name(b),
        (numpad_name(a.key_code).len() == 0 && numpad_name(b.key_code).len() == 0 && a.logical_key
            == b.logical_key && a.logical_key is Character && a.logical_key->0@.len() == 1)
            ==> key_name(a) == key_name(b),
        (a.text == b.text && a.logical_key == b.logical_key) ==> typed_char(a) == typed_char(b),
        typed_char(a) is Some ==> typed_char(a)->0.len() == 1,
{
}

} // verus!
