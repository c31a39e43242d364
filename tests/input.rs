use kavi::input::{
    is_text_key_code, key_action, text_key, virtual_key, Input, Key, KeyAction, KeyEvent, KeyState, Mode, Modifiers,
};
use kavi::messages::Command;

fn press(key: Key, translated: Option<char>) -> KeyEvent {
    KeyEvent { state: KeyState::Press, key, translated, mods: Modifiers::empty(), repeat: false }
}

#[test]
fn normal_mode_moves_cursor() {
    let mut input = Input::new();
    assert_eq!(input.parse(press(Key::D, Some('d'))), Some(Command::MoveLeft));
    assert_eq!(input.parse(press(Key::F, Some('f'))), Some(Command::MoveRight));
    assert_eq!(input.parse(press(Key::J, Some('j'))), Some(Command::MoveDown));
    assert_eq!(input.parse(press(Key::K, Some('k'))), Some(Command::MoveUp));
    assert_eq!(input.parse(press(Key::A, Some('a'))), None);
    assert_eq!(input.mode, Mode::Normal);
}

#[test]
fn modifiers_disable_normal_commands() {
    let mut input = Input::new();
    let mut event = press(Key::D, Some('d'));
    event.mods.insert(Modifiers::control());
    assert_eq!(input.parse(event), None);
}

#[test]
fn insert_mode_types_and_escape_leaves() {
    let mut input = Input::new();
    assert_eq!(input.parse(press(Key::L, Some('l'))), None);
    assert_eq!(input.mode, Mode::Insert);
    assert_eq!(input.parse(press(Key::D, Some('d'))), Some(Command::Insert('d')));
    assert_eq!(input.parse(press(Key::F11, None)), None);
    assert_eq!(input.parse(press(Key::Escape, None)), None);
    assert_eq!(input.mode, Mode::Normal);
}

#[test]
fn modifier_bits_combine() {
    let mut m = Modifiers::empty();
    assert!(m.is_empty());
    m.insert(Modifiers::alt());
    m.insert(Modifiers::shift());
    assert_eq!(m.bits, 6);
}

#[test]
fn virtual_key_codes() {
    assert_eq!(virtual_key(0x08), Key::Backspace);
    assert_eq!(virtual_key(0x1B), Key::Escape);
    assert_eq!(virtual_key(0x41), Key::A);
    assert_eq!(virtual_key(0x5A), Key::Z);
    assert_eq!(virtual_key(0x39), Key::Key9);
    assert_eq!(virtual_key(0x7A), Key::F11);
    assert_eq!(virtual_key(0xA1), Key::RightShift);
    assert_eq!(virtual_key(0xFF), Key::Unknown);
    assert!(is_text_key_code(0xBA));
    assert!(!is_text_key_code(0xBB));
    assert_eq!(virtual_key(0xBB), Key::Plus);
}

#[test]
fn punctuation_keys_by_character() {
    assert_eq!(text_key(';'), Some(Key::Semicolon));
    assert_eq!(text_key('\\'), Some(Key::Backslash));
    assert_eq!(text_key('#'), Some(Key::Hash));
    assert_eq!(text_key('a'), None);
}

#[test]
fn key_presses_become_actions() {
    let mut release = press(Key::Escape, None);
    release.state = KeyState::Release;
    assert_eq!(key_action(release), Some(KeyAction::Close));
    assert_eq!(key_action(press(Key::F11, None)), Some(KeyAction::ToggleFullscreen));
    assert_eq!(key_action(press(Key::Backspace, None)), Some(KeyAction::Command(Command::Delete)));
    assert_eq!(key_action(press(Key::Return, Some('\r'))), Some(KeyAction::Command(Command::NewLine)));
    assert_eq!(key_action(press(Key::A, Some('a'))), Some(KeyAction::Command(Command::Insert('a'))));
    let mut up = press(Key::A, Some('a'));
    up.state = KeyState::Release;
    assert_eq!(key_action(up), None);
    assert_eq!(key_action(press(Key::Left, None)), None);
}
