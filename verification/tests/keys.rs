use physics_rust::keys::{key_char, key_code, KeyCode, KeyInput, LogicalKey};

fn input(key_code: KeyCode, logical_key: LogicalKey, text: Option<&str>) -> KeyInput {
    KeyInput { key_code, logical_key, text: text.map(Into::into), pressed: true }
}

#[test]
fn key_names_follow_thyme_spelling_and_keep_typed_characters() {
    let letter = input(KeyCode::KeyQ, LogicalKey::Character("A".into()), Some("A"));
    assert_eq!(key_code(&letter), "a");
    assert_eq!(key_char(&letter).as_deref(), Some("A"));

    let numpad = input(KeyCode::Numpad2, LogicalKey::Character("2".into()), Some("2"));
    assert_eq!(key_code(&numpad), "[2]");

    let arrow = input(KeyCode::ArrowLeft, LogicalKey::Other, None);
    assert_eq!(key_code(&arrow), "left");
    assert_eq!(key_char(&arrow), None);
}

#[test]
fn keys_without_a_single_typed_character_use_their_position_name() {
    let dead = input(KeyCode::KeyE, LogicalKey::Character("ée".into()), None);
    assert_eq!(key_code(&dead), "e");
    assert_eq!(key_char(&dead), None);
    let ctrl = input(KeyCode::ControlRight, LogicalKey::Other, None);
    assert_eq!(key_code(&ctrl), "ctrl");
    let unknown = input(KeyCode::Other, LogicalKey::Other, None);
    assert_eq!(key_code(&unknown), "unknown");
    let backslash = input(KeyCode::IntlBackslash, LogicalKey::Other, None);
    assert_eq!(key_code(&backslash), "\\");
}

#[test]
fn keypad_names_win_over_typed_text() {
    let enter = input(KeyCode::NumpadEnter, LogicalKey::Character("\r".into()), Some("\r"));
    assert_eq!(key_code(&enter), "enter");
    let equals = input(KeyCode::NumpadEqual, LogicalKey::Character("=".into()), None);
    assert_eq!(key_code(&equals), "equals");
    assert_eq!(key_char(&equals).as_deref(), Some("="));
}

#[test]
fn typed_character_falls_back_to_the_logical_key_and_is_lowercased_for_the_name() {
    let shifted = input(KeyCode::Digit1, LogicalKey::Character("!".into()), None);
    assert_eq!(key_code(&shifted), "!");
    assert_eq!(key_char(&shifted).as_deref(), Some("!"));
    let upper = input(KeyCode::KeyZ, LogicalKey::Character("Z".into()), Some("Z"));
    assert_eq!(key_code(&upper), "z");
    let two = input(KeyCode::KeyA, LogicalKey::Other, Some("ab"));
    assert_eq!(key_char(&two), None);
    assert_eq!(key_code(&two), "a");
}
