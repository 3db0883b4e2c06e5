//! Key events, modifier sets, and the keycodes the translator compares with.

use godot::global::Key as GodotKey;
use godot::obj::EngineEnum;
use godot_vim::input;
use godot_vim::keymap::normalize_key_for_mapping;
use godot_vim::keymap::Key;
use godot_vim::keymap::KeyEvent;
use godot_vim::keymap::Modifiers;

#[test]
fn normalize_with_latin_key_returns_latin() {
    let cyrillic_event =
        KeyEvent::new(Key::Char('\u{043E}'), Modifiers::alt()).with_latin(Key::Char('j'));
    let normalized = normalize_key_for_mapping(cyrillic_event);
    assert_eq!(normalized.key(), Key::Char('j'));
    assert_eq!(normalized.modifiers(), Modifiers::alt());
}

#[test]
fn normalize_without_latin_key_returns_original() {
    let ascii_event = KeyEvent::new(Key::Char('j'), Modifiers::alt());
    let normalized = normalize_key_for_mapping(ascii_event);
    assert_eq!(normalized.key(), Key::Char('j'));
    assert_eq!(normalized.modifiers(), Modifiers::alt());
}

#[test]
fn normalize_preserves_ctrl_modifier() {
    let event = KeyEvent::new(Key::Char('\u{043E}'), Modifiers::ctrl().union(Modifiers::alt()))
        .with_latin(Key::Char('j'));
    let normalized = normalize_key_for_mapping(event);
    assert_eq!(normalized.key(), Key::Char('j'));
    assert_eq!(normalized.modifiers(), Modifiers::ctrl().union(Modifiers::alt()));
}

#[test]
fn normalize_no_modifiers() {
    let event = KeyEvent::new(Key::Char('\u{043E}'), Modifiers::none()).with_latin(Key::Char('j'));
    let normalized = normalize_key_for_mapping(event);
    assert_eq!(normalized.key(), Key::Char('j'));
    assert_eq!(normalized.modifiers(), Modifiers::none());
}

#[test]
fn normalize_special_key_unchanged() {
    let event = KeyEvent::new(Key::Escape, Modifiers::none());
    let normalized = normalize_key_for_mapping(event);
    assert_eq!(normalized.key(), Key::Escape);
}

#[test]
fn normalized_event_drops_latin_key() {
    let event = KeyEvent::new(Key::Char('ж'), Modifiers::none()).with_latin(Key::Char(';'));
    let normalized = normalize_key_for_mapping(event);
    assert_eq!(normalized, KeyEvent::new(Key::Char(';'), Modifiers::none()));
    assert_eq!(normalized.latin_key(), None);
}

#[test]
fn modifier_set_operations() {
    let cs = Modifiers::ctrl().union(Modifiers::shift());
    assert!(cs.contains(Modifiers::ctrl()));
    assert!(cs.contains(Modifiers::shift()));
    assert!(!cs.contains(Modifiers::alt()));
    assert!(cs.intersects(Modifiers::alt().union(Modifiers::shift())));
    assert!(!cs.intersects(Modifiers::alt().union(Modifiers::meta())));
    assert_eq!(cs.difference(Modifiers::shift()), Modifiers::ctrl());
    assert!(cs.difference(cs).is_empty());
    assert!(Modifiers::none().is_empty());
    assert!(!Modifiers::meta().is_empty());
    assert!(cs.contains(Modifiers::none()));
}

#[test]
fn keycodes_match_godot_key_ordinals() {
    let pairs = [
        (input::KEY_SPACE, GodotKey::SPACE),
        (input::KEY_APOSTROPHE, GodotKey::APOSTROPHE),
        (input::KEY_COMMA, GodotKey::COMMA),
        (input::KEY_MINUS, GodotKey::MINUS),
        (input::KEY_PERIOD, GodotKey::PERIOD),
        (input::KEY_SLASH, GodotKey::SLASH),
        (input::KEY_0, GodotKey::KEY_0),
        (input::KEY_1, GodotKey::KEY_1),
        (input::KEY_2, GodotKey::KEY_2),
        (input::KEY_3, GodotKey::KEY_3),
        (input::KEY_4, GodotKey::KEY_4),
        (input::KEY_5, GodotKey::KEY_5),
        (input::KEY_6, GodotKey::KEY_6),
        (input::KEY_7, GodotKey::KEY_7),
        (input::KEY_8, GodotKey::KEY_8),
        (input::KEY_9, GodotKey::KEY_9),
        (input::KEY_SEMICOLON, GodotKey::SEMICOLON),
        (input::KEY_EQUAL, GodotKey::EQUAL),
        (input::KEY_A, GodotKey::A),
        (input::KEY_Z, GodotKey::Z),
        (input::KEY_BRACKETLEFT, GodotKey::BRACKETLEFT),
        (input::KEY_BACKSLASH, GodotKey::BACKSLASH),
        (input::KEY_BRACKETRIGHT, GodotKey::BRACKETRIGHT),
        (input::KEY_QUOTELEFT, GodotKey::QUOTELEFT),
        (input::KEY_ESCAPE, GodotKey::ESCAPE),
        (input::KEY_TAB, GodotKey::TAB),
        (input::KEY_BACKTAB, GodotKey::BACKTAB),
        (input::KEY_BACKSPACE, GodotKey::BACKSPACE),
        (input::KEY_ENTER, GodotKey::ENTER),
        (input::KEY_KP_ENTER, GodotKey::KP_ENTER),
        (input::KEY_INSERT, GodotKey::INSERT),
        (input::KEY_DELETE, GodotKey::DELETE),
        (input::KEY_CLEAR, GodotKey::CLEAR),
        (input::KEY_HOME, GodotKey::HOME),
        (input::KEY_END, GodotKey::END),
        (input::KEY_LEFT, GodotKey::LEFT),
        (input::KEY_UP, GodotKey::UP),
        (input::KEY_RIGHT, GodotKey::RIGHT),
        (input::KEY_DOWN, GodotKey::DOWN),
        (input::KEY_PAGEUP, GodotKey::PAGEUP),
        (input::KEY_PAGEDOWN, GodotKey::PAGEDOWN),
        (input::KEY_SHIFT, GodotKey::SHIFT),
        (input::KEY_CTRL, GodotKey::CTRL),
        (input::KEY_META, GodotKey::META),
        (input::KEY_ALT, GodotKey::ALT),
        (input::KEY_CAPSLOCK, GodotKey::CAPSLOCK),
        (input::KEY_NUMLOCK, GodotKey::NUMLOCK),
        (input::KEY_SCROLLLOCK, GodotKey::SCROLLLOCK),
        (input::KEY_F1, GodotKey::F1),
        (input::KEY_F24, GodotKey::F24),
        (input::KEY_KP_MULTIPLY, GodotKey::KP_MULTIPLY),
        (input::KEY_KP_DIVIDE, GodotKey::KP_DIVIDE),
        (input::KEY_KP_SUBTRACT, GodotKey::KP_SUBTRACT),
        (input::KEY_KP_PERIOD, GodotKey::KP_PERIOD),
        (input::KEY_KP_ADD, GodotKey::KP_ADD),
        (input::KEY_KP_0, GodotKey::KP_0),
        (input::KEY_KP_9, GodotKey::KP_9),
    ];
    for (code, godot) in pairs {
        assert_eq!(code, godot.ord(), "{godot:?}");
    }
}

#[test]
fn named_key_table() {
    assert_eq!(input::get_named_key(input::KEY_ESCAPE), Some(Key::Escape));
    assert_eq!(input::get_named_key(input::KEY_BACKTAB), Some(Key::Tab));
    assert_eq!(input::get_named_key(GodotKey::F17.ord()), Some(Key::F(17)));
    assert_eq!(input::get_named_key(GodotKey::KP_7.ord()), Some(Key::Char('7')));
    assert_eq!(input::get_named_key(input::KEY_CLEAR), Some(Key::Char('5')));
    assert_eq!(input::get_named_key(input::KEY_A), None);
    assert_eq!(input::get_named_key(input::KEY_SHIFT), None);
}

#[test]
fn dead_key_block_bounds() {
    assert!(!input::is_dead_key_char('\u{02FF}'));
    assert!(input::is_dead_key_char('\u{0300}'));
    assert!(input::is_dead_key_char('\u{0301}'));
    assert!(input::is_dead_key_char('\u{036F}'));
    assert!(!input::is_dead_key_char('\u{0370}'));
    assert!(!input::is_dead_key_char('a'));
}

#[test]
fn ctrl_resolution_steps() {
    let ctrl = Modifiers::ctrl();
    let ctrl_shift = ctrl.union(Modifiers::shift());
    // Ctrl+Shift+Space: '@', Shift dropped.
    assert_eq!(
        input::resolve_ctrl_key(input::KEY_SPACE, input::KEY_SPACE, 0, ctrl_shift),
        Some(KeyEvent::new(Key::Char('@'), ctrl))
    );
    // Logical letter.
    assert_eq!(
        input::resolve_ctrl_key(GodotKey::W.ord(), GodotKey::W.ord(), 0x17, ctrl),
        Some(KeyEvent::new(Key::Char('w'), ctrl))
    );
    // Logical symbol with Shift: shifted physical symbol, Shift dropped.
    assert_eq!(
        input::resolve_ctrl_key(input::KEY_BRACKETLEFT, input::KEY_BRACKETLEFT, 0, ctrl_shift),
        Some(KeyEvent::new(Key::Char('{'), ctrl))
    );
    // Unknown logical and physical keys.
    assert_eq!(
        input::resolve_ctrl_key(GodotKey::UNKNOWN.ord(), GodotKey::UNKNOWN.ord(), 0, ctrl),
        None
    );
}

#[test]
fn plain_shifted_letter_carries_no_modifier() {
    let r = input::translate_key(GodotKey::J.ord(), GodotKey::J.ord(), 'J' as u32, false, false, true, false);
    assert_eq!(r, Some(KeyEvent::new(Key::Char('J'), Modifiers::none())));
}

#[test]
fn latin_hint_does_not_affect_equality() {
    let plain = KeyEvent::new(Key::Char('€'), Modifiers::none());
    let hinted = plain.with_latin(Key::Char('e'));
    assert_eq!(plain, hinted);
    assert_eq!(hinted.latin_key(), Some(Key::Char('e')));
    assert_ne!(plain, KeyEvent::new(Key::Char('€'), Modifiers::alt()));
    assert_ne!(plain, KeyEvent::new(Key::Char('e'), Modifiers::none()));
}
