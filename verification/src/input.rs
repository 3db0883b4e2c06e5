//! Translation of an editor key press (logical keycode, physical keycode,
//! unicode and modifier flags) into the engine's [`KeyEvent`].
//!
//! Three paths, in priority order:
//! 1. named keys (Enter, Escape, arrows, F-keys, keypad) map directly;
//! 2. Ctrl+key goes by the keycode, since the unicode of Ctrl+letter is a
//!    control code;
//! 3. printable characters go by the unicode, with Shift dropped because the
//!    character already carries it (`'A'`, `'@'`).
//!
//! Keycodes are the ordinals of Godot's `Key` enumeration.

use crate::keymap::Key;
use crate::keymap::KeyEvent;
use crate::keymap::Modifiers;
use crate::strs::lower_char;
use vstd::prelude::*;

verus! {

pub const KEY_SPACE: i32 = 32;
pub const KEY_APOSTROPHE: i32 = 39;
pub const KEY_COMMA: i32 = 44;
pub const KEY_MINUS: i32 = 45;
pub const KEY_PERIOD: i32 = 46;
pub const KEY_SLASH: i32 = 47;
pub const KEY_0: i32 = 48;
pub const KEY_1: i32 = 49;
pub const KEY_2: i32 = 50;
pub const KEY_3: i32 = 51;
pub const KEY_4: i32 = 52;
pub const KEY_5: i32 = 53;
pub const KEY_6: i32 = 54;
pub const KEY_7: i32 = 55;
pub const KEY_8: i32 = 56;
pub const KEY_9: i32 = 57;
pub const KEY_SEMICOLON: i32 = 59;
pub const KEY_EQUAL: i32 = 61;
pub const KEY_A: i32 = 65;
pub const KEY_Z: i32 = 90;
pub const KEY_BRACKETLEFT: i32 = 91;
pub const KEY_BACKSLASH: i32 = 92;
pub const KEY_BRACKETRIGHT: i32 = 93;
pub const KEY_QUOTELEFT: i32 = 96;
pub const KEY_ESCAPE: i32 = 4194305;
pub const KEY_TAB: i32 = 4194306;
pub const KEY_BACKTAB: i32 = 4194307;
pub const KEY_BACKSPACE: i32 = 4194308;
pub const KEY_ENTER: i32 = 4194309;
pub const KEY_KP_ENTER: i32 = 4194310;
pub const KEY_INSERT: i32 = 4194311;
pub const KEY_DELETE: i32 = 4194312;
pub const KEY_CLEAR: i32 = 4194316;
pub const KEY_HOME: i32 = 4194317;
pub const KEY_END: i32 = 4194318;
pub const KEY_LEFT: i32 = 4194319;
pub const KEY_UP: i32 = 4194320;
pub const KEY_RIGHT: i32 = 4194321;
pub const KEY_DOWN: i32 = 4194322;
pub const KEY_PAGEUP: i32 = 4194323;
pub const KEY_PAGEDOWN: i32 = 4194324;
pub const KEY_SHIFT: i32 = 4194325;
pub const KEY_CTRL: i32 = 4194326;
pub const KEY_META: i32 = 4194327;
pub const KEY_ALT: i32 = 4194328;
pub const KEY_CAPSLOCK: i32 = 4194329;
pub const KEY_NUMLOCK: i32 = 4194330;
pub const KEY_SCROLLLOCK: i32 = 4194331;
pub const KEY_F1: i32 = 4194332;
pub const KEY_F24: i32 = 4194355;
pub const KEY_KP_MULTIPLY: i32 = 4194433;
pub const KEY_KP_DIVIDE: i32 = 4194434;
pub const KEY_KP_SUBTRACT: i32 = 4194435;
pub const KEY_KP_PERIOD: i32 = 4194436;
pub const KEY_KP_ADD: i32 = 4194437;
pub const KEY_KP_0: i32 = 4194438;
pub const KEY_KP_9: i32 = 4194447;

// ---------------------------------------------------------------------------
// Characters
// ---------------------------------------------------------------------------

/// The character with scalar value `u`, if `u` is a Unicode scalar value.
pub open spec fn scalar_char(u: u32) -> Option<char> {
    if u <= 0xD7FF || (0xE000 <= u && u <= 0x10FFFF) {
        Some(u as char)
    } else {
        None
    }
}

/// Calls `char::from_u32`: the character of scalar value `u`, or `None`
/// where `u` is a surrogate or beyond U+10FFFF.
#[verifier::external_body]
fn char_from_u32(u: u32) -> (r: Option<char>)
    ensures
        r == scalar_char(u),
{
    char::from_u32(u)
}

/// Unicode general category `Cc` (what `char::is_control` tests): the C0
/// controls U+0000 to U+001F, DEL, and the C1 controls U+0080 to U+009F.
pub open spec fn unicode_control(c: char) -> bool {
    (c as u32) <= 0x1F || (0x7F <= (c as u32) && (c as u32) <= 0x9F)
}

/// Whether `c` is a control character (see [`unicode_control`]).
pub(crate) fn char_is_control(c: char) -> (r: bool)
    ensures
        r == unicode_control(c),
{
    let u = c as u32;
    u <= 0x1F || (0x7F <= u && u <= 0x9F)
}

/// Printable ASCII other than space (`!` through `~`).
pub open spec fn is_ascii_graphic(c: char) -> bool {
    '!' <= c <= '~'
}

pub open spec fn is_ascii_alpha(c: char) -> bool {
    ('a' <= c <= 'z') || ('A' <= c <= 'Z')
}

/// A combining diacritical mark (U+0300..U+036F): what a dead key leaves
/// behind on X11 without an input method.
pub open spec fn is_dead_key_spec(c: char) -> bool {
    0x300 <= (c as u32) <= 0x36F
}

/// Whether `ch` is a dead-key artifact that is dropped.
pub fn is_dead_key_char(ch: char) -> (r: bool)
    ensures
        r == is_dead_key_spec(ch),
{
    let v = ch as u32;
    0x300 <= v && v <= 0x36F
}

fn ascii_lower(c: char) -> (r: char)
    ensures
        r == lower_char(c),
{
    if 'A' <= c && c <= 'Z' {
        ((c as u8) + 32) as char
    } else {
        c
    }
}

// ---------------------------------------------------------------------------
// Named keys
// ---------------------------------------------------------------------------

pub open spec fn is_letter_code(code: i32) -> bool {
    KEY_A <= code <= KEY_Z
}

/// The modifier keys that produce no event when pressed alone.
pub open spec fn is_bare_modifier(code: i32) -> bool {
    code == KEY_SHIFT || code == KEY_CTRL || code == KEY_ALT || code == KEY_META || code
        == KEY_CAPSLOCK || code == KEY_NUMLOCK || code == KEY_SCROLLLOCK
}

/// The named key of a keycode. Keypad keys give their ASCII characters, so
/// that keypad 5 acts as `5`; Clear (keypad 5 without Num Lock) is `5` too.
pub open spec fn named_key(code: i32) -> Option<Key> {
    if code == KEY_ESCAPE {
        Some(Key::Escape)
    } else if code == KEY_ENTER || code == KEY_KP_ENTER {
        Some(Key::Enter)
    } else if code == KEY_BACKSPACE {
        Some(Key::Backspace)
    } else if code == KEY_TAB || code == KEY_BACKTAB {
        Some(Key::Tab)
    } else if code == KEY_DELETE {
        Some(Key::Delete)
    } else if code == KEY_INSERT {
        Some(Key::Insert)
    } else if code == KEY_UP {
        Some(Key::Up)
    } else if code == KEY_DOWN {
        Some(Key::Down)
    } else if code == KEY_LEFT {
        Some(Key::Left)
    } else if code == KEY_RIGHT {
        Some(Key::Right)
    } else if code == KEY_HOME {
        Some(Key::Home)
    } else if code == KEY_END {
        Some(Key::End)
    } else if code == KEY_PAGEUP {
        Some(Key::PageUp)
    } else if code == KEY_PAGEDOWN {
        Some(Key::PageDown)
    } else if KEY_F1 <= code <= KEY_F24 {
        Some(Key::F((code - KEY_F1 + 1) as u8))
    } else if KEY_KP_0 <= code <= KEY_KP_9 {
        Some(Key::Char((code - KEY_KP_0 + 48) as char))
    } else if code == KEY_KP_MULTIPLY {
        Some(Key::Char('*'))
    } else if code == KEY_KP_SUBTRACT {
        Some(Key::Char('-'))
    } else if code == KEY_KP_ADD {
        Some(Key::Char('+'))
    } else if code == KEY_KP_PERIOD {
        Some(Key::Char('.'))
    } else if code == KEY_KP_DIVIDE {
        Some(Key::Char('/'))
    } else if code == KEY_CLEAR {
        Some(Key::Char('5'))
    } else {
        None
    }
}

/// The named key of `raw`, or `None` to fall through to the Ctrl and
/// unicode paths.
pub fn get_named_key(raw: i32) -> (r: Option<Key>)
    ensures
        r == named_key(raw),
{
    if raw == KEY_ESCAPE {
        Some(Key::Escape)
    } else if raw == KEY_ENTER || raw == KEY_KP_ENTER {
        Some(Key::Enter)
    } else if raw == KEY_BACKSPACE {
        Some(Key::Backspace)
    } else if raw == KEY_TAB || raw == KEY_BACKTAB {
        Some(Key::Tab)
    } else if raw == KEY_DELETE {
        Some(Key::Delete)
    } else if raw == KEY_INSERT {
        Some(Key::Insert)
    } else if raw == KEY_UP {
        Some(Key::Up)
    } else if raw == KEY_DOWN {
        Some(Key::Down)
    } else if raw == KEY_LEFT {
        Some(Key::Left)
    } else if raw == KEY_RIGHT {
        Some(Key::Right)
    } else if raw == KEY_HOME {
        Some(Key::Home)
    } else if raw == KEY_END {
        Some(Key::End)
    } else if raw == KEY_PAGEUP {
        Some(Key::PageUp)
    } else if raw == KEY_PAGEDOWN {
        Some(Key::PageDown)
    } else if KEY_F1 <= raw && raw <= KEY_F24 {
        Some(Key::F((raw - KEY_F1 + 1) as u8))
    } else if KEY_KP_0 <= raw && raw <= KEY_KP_9 {
        Some(Key::Char(((raw - KEY_KP_0 + 48) as u8) as char))
    } else if raw == KEY_KP_MULTIPLY {
        Some(Key::Char('*'))
    } else if raw == KEY_KP_SUBTRACT {
        Some(Key::Char('-'))
    } else if raw == KEY_KP_ADD {
        Some(Key::Char('+'))
    } else if raw == KEY_KP_PERIOD {
        Some(Key::Char('.'))
    } else if raw == KEY_KP_DIVIDE {
        Some(Key::Char('/'))
    } else if raw == KEY_CLEAR {
        Some(Key::Char('5'))
    } else {
        None
    }
}

// ---------------------------------------------------------------------------
// Physical keys on a US layout
// ---------------------------------------------------------------------------

/// What Shift gives on a US layout for the digit and symbol keys.
pub open spec fn us_shifted_symbol(code: i32) -> Option<char> {
    if code == KEY_1 {
        Some('!')
    } else if code == KEY_2 {
        Some('@')
    } else if code == KEY_3 {
        Some('#')
    } else if code == KEY_4 {
        Some('$')
    } else if code == KEY_5 {
        Some('%')
    } else if code == KEY_6 {
        Some('^')
    } else if code == KEY_7 {
        Some('&')
    } else if code == KEY_8 {
        Some('*')
    } else if code == KEY_9 {
        Some('(')
    } else if code == KEY_0 {
        Some(')')
    } else if code == KEY_MINUS {
        Some('_')
    } else if code == KEY_EQUAL {
        Some('+')
    } else if code == KEY_BRACKETLEFT {
        Some('{')
    } else if code == KEY_BRACKETRIGHT {
        Some('}')
    } else if code == KEY_BACKSLASH {
        Some('|')
    } else if code == KEY_SEMICOLON {
        Some(':')
    } else if code == KEY_APOSTROPHE {
        Some('"')
    } else if code == KEY_QUOTELEFT {
        Some('~')
    } else if code == KEY_COMMA {
        Some('<')
    } else if code == KEY_PERIOD {
        Some('>')
    } else if code == KEY_SLASH {
        Some('?')
    } else if code == KEY_SPACE {
        Some(' ')
    } else {
        None
    }
}

/// The character a physical key gives on a US layout: letters in the case
/// that Shift selects, the shifted symbols, and unshifted printable ASCII
/// (whose keycodes are their code points). `None` for every other key.
pub open spec fn physical_ascii(code: i32, shift: bool) -> Option<char> {
    if is_letter_code(code) {
        Some(
            if shift {
                code as char
            } else {
                (code + 32) as char
            },
        )
    } else if shift {
        us_shifted_symbol(code)
    } else if KEY_SPACE <= code <= 126 {
        Some(code as char)
    } else {
        None
    }
}

fn shifted_symbol(code: i32) -> (r: Option<char>)
    ensures
        r == us_shifted_symbol(code),
{
    if code == KEY_1 {
        Some('!')
    } else if code == KEY_2 {
        Some('@')
    } else if code == KEY_3 {
        Some('#')
    } else if code == KEY_4 {
        Some('$')
    } else if code == KEY_5 {
        Some('%')
    } else if code == KEY_6 {
        Some('^')
    } else if code == KEY_7 {
        Some('&')
    } else if code == KEY_8 {
        Some('*')
    } else if code == KEY_9 {
        Some('(')
    } else if code == KEY_0 {
        Some(')')
    } else if code == KEY_MINUS {
        Some('_')
    } else if code == KEY_EQUAL {
        Some('+')
    } else if code == KEY_BRACKETLEFT {
        Some('{')
    } else if code == KEY_BRACKETRIGHT {
        Some('}')
    } else if code == KEY_BACKSLASH {
        Some('|')
    } else if code == KEY_SEMICOLON {
        Some(':')
    } else if code == KEY_APOSTROPHE {
        Some('"')
    } else if code == KEY_QUOTELEFT {
        Some('~')
    } else if code == KEY_COMMA {
        Some('<')
    } else if code == KEY_PERIOD {
        Some('>')
    } else if code == KEY_SLASH {
        Some('?')
    } else if code == KEY_SPACE {
        Some(' ')
    } else {
        None
    }
}

/// The US-layout character of a physical key with the given Shift state.
pub fn physical_to_ascii(physical: i32, shift: bool) -> (r: Option<char>)
    ensures
        r == physical_ascii(physical, shift),
{
    if KEY_A <= physical && physical <= KEY_Z {
        if shift {
            Some((physical as u8) as char)
        } else {
            Some(((physical + 32) as u8) as char)
        }
    } else if shift {
        shifted_symbol(physical)
    } else if KEY_SPACE <= physical && physical <= 126 {
        Some((physical as u8) as char)
    } else {
        None
    }
}

// ---------------------------------------------------------------------------
// Ctrl combinations
// ---------------------------------------------------------------------------

pub open spec fn without_shift(m: Modifiers) -> Modifiers {
    Modifiers { shift: false, ..m }
}

/// Whether `u` is a printable, non-alphabetic character for Ctrl+Shift.
pub open spec fn ctrl_shift_symbol(u: u32) -> bool {
    u != 0 && scalar_char(u) is Some && !unicode_control(u as char) && !is_ascii_alpha(
        u as char,
    )
}

/// Ctrl+key, in priority order:
/// 1. Ctrl+Space is `@` (the terminal NUL convention), Shift dropped;
/// 2. a logical letter gives its lowercase letter;
/// 3. a physical letter gives its lowercase letter (non-Latin layouts);
/// 4. with Shift, a printable non-letter unicode gives that character,
///    Shift dropped;
/// 5. a logical keycode in printable ASCII gives its character: with Shift
///    and not a letter, the US-shifted symbol of the physical key (or the
///    character itself where there is none), Shift dropped; else its
///    lowercase, modifiers kept;
/// 6. the US-layout character of the physical key with the Shift state, if
///    printable, Shift dropped where it was held.
pub open spec fn ctrl_key(keycode: i32, physical: i32, u: u32, m: Modifiers) -> Option<KeyEvent> {
    let fallback = physical_ascii(physical, m.shift);
    if keycode == KEY_SPACE {
        Some(KeyEvent::new_spec(Key::Char('@'), without_shift(m)))
    } else if is_letter_code(keycode) {
        Some(KeyEvent::new_spec(Key::Char((keycode + 32) as char), m))
    } else if is_letter_code(physical) {
        Some(KeyEvent::new_spec(Key::Char((physical + 32) as char), m))
    } else if m.shift && ctrl_shift_symbol(u) {
        Some(KeyEvent::new_spec(Key::Char(u as char), without_shift(m)))
    } else if 0x21 <= keycode <= 0x7E {
        let ch = keycode as char;
        if m.shift && !is_ascii_alpha(ch) {
            let shifted = match physical_ascii(physical, true) {
                Some(s) => s,
                None => ch,
            };
            Some(KeyEvent::new_spec(Key::Char(shifted), without_shift(m)))
        } else {
            Some(KeyEvent::new_spec(Key::Char(lower_char(ch)), m))
        }
    } else if fallback is Some && is_ascii_graphic(fallback->0) {
        Some(
            KeyEvent::new_spec(
                Key::Char(fallback->0),
                if m.shift {
                    without_shift(m)
                } else {
                    m
                },
            ),
        )
    } else {
        None
    }
}

/// Resolve a Ctrl+key combination by the priority chain of [`ctrl_key`].
pub fn resolve_ctrl_key(keycode: i32, physical_keycode: i32, unicode: u32, modifiers: Modifiers) -> (r:
    Option<KeyEvent>)
    ensures
        r == ctrl_key(keycode, physical_keycode, unicode, modifiers),
{
    let no_shift = modifiers.difference(Modifiers::shift());
    if keycode == KEY_SPACE {
        return Some(KeyEvent::new(Key::Char('@'), no_shift));
    }
    if KEY_A <= keycode && keycode <= KEY_Z {
        return Some(KeyEvent::new(Key::Char(((keycode + 32) as u8) as char), modifiers));
    }
    if KEY_A <= physical_keycode && physical_keycode <= KEY_Z {
        return Some(KeyEvent::new(Key::Char(((physical_keycode + 32) as u8) as char), modifiers));
    }
    if modifiers.shift && unicode != 0 {
        if let Some(ch) = char_from_u32(unicode) {
            if !char_is_control(ch) && !(('a' <= ch && ch <= 'z') || ('A' <= ch && ch <= 'Z')) {
                return Some(KeyEvent::new(Key::Char(ch), no_shift));
            }
        }
    }
    if 0x21 <= keycode && keycode <= 0x7E {
        let ch = (keycode as u8) as char;
        let alpha = ('a' <= ch && ch <= 'z') || ('A' <= ch && ch <= 'Z');
        if modifiers.shift && !alpha {
            let shifted = match physical_to_ascii(physical_keycode, true) {
                Some(s) => s,
                None => ch,
            };
            return Some(KeyEvent::new(Key::Char(shifted), no_shift));
        } else {
            return Some(KeyEvent::new(Key::Char(ascii_lower(ch)), modifiers));
        }
    }
    if let Some(ch) = physical_to_ascii(physical_keycode, modifiers.shift) {
        if '!' <= ch && ch <= '~' {
            let mods = if modifiers.shift {
                no_shift
            } else {
                modifiers
            };
            return Some(KeyEvent::new(Key::Char(ch), mods));
        }
    }
    None
}

// ---------------------------------------------------------------------------
// Translation
// ---------------------------------------------------------------------------

/// A printable character: a scalar value from space upwards that is not a
/// control character.
pub open spec fn printable_unicode(u: u32) -> bool {
    u != 0 && scalar_char(u) is Some && (u as char) >= ' ' && !unicode_control(u as char)
}

/// AltGr as Windows reports it: Ctrl and Alt together, no Meta, with a
/// printable character.
pub open spec fn altgr_windows(u: u32, ctrl: bool, alt: bool, meta: bool) -> bool {
    ctrl && alt && !meta && printable_unicode(u)
}

/// Whether the logical keycode's character equals `c` up to ASCII case.
pub open spec fn logical_matches(keycode: i32, c: char) -> bool {
    keycode >= 0 && scalar_char(keycode as u32) is Some && lower_char((keycode as u32) as char)
        == lower_char(c)
}

/// AltGr as Linux reports it: Alt alone with a printable character that is
/// neither key's US-layout character (in either Shift state) nor, up to
/// case, the logical key's character.
pub open spec fn altgr_linux(
    keycode: i32,
    physical: i32,
    u: u32,
    ctrl: bool,
    alt: bool,
    meta: bool,
) -> bool {
    !altgr_windows(u, ctrl, alt, meta) && alt && !ctrl && !meta && printable_unicode(u)
        && physical_ascii(physical, false) != Some(u as char) && physical_ascii(physical, true)
        != Some(u as char) && !logical_matches(keycode, u as char)
}

/// The modifiers of the event once AltGr has been taken off: Windows AltGr
/// drops Ctrl and Alt, Linux AltGr drops Alt.
pub open spec fn event_modifiers(
    keycode: i32,
    physical: i32,
    u: u32,
    ctrl: bool,
    alt: bool,
    shift: bool,
    meta: bool,
) -> Modifiers {
    let w = altgr_windows(u, ctrl, alt, meta);
    let l = altgr_linux(keycode, physical, u, ctrl, alt, meta);
    Modifiers { ctrl: ctrl && !w, alt: alt && !w && !l, shift, meta }
}

/// Shift is dropped from a typed character unless AltGr is in play or Ctrl,
/// Alt or Meta is held.
pub open spec fn typed_modifiers(m: Modifiers, altgr: bool) -> Modifiers {
    if !altgr && !m.ctrl && !m.alt && !m.meta {
        without_shift(m)
    } else {
        m
    }
}

/// The event for a key press, or `None` for what is not handled: a modifier
/// key alone, a key with neither a name nor a character, a control
/// character that Ctrl+letter did not produce, and a dead-key artifact.
pub open spec fn translate(
    keycode: i32,
    physical: i32,
    u: u32,
    ctrl: bool,
    alt: bool,
    shift: bool,
    meta: bool,
) -> Option<KeyEvent> {
    let altgr = altgr_windows(u, ctrl, alt, meta) || altgr_linux(
        keycode,
        physical,
        u,
        ctrl,
        alt,
        meta,
    );
    let m = event_modifiers(keycode, physical, u, ctrl, alt, shift, meta);
    let fallback = physical_ascii(physical, shift);
    if is_bare_modifier(keycode) {
        None
    } else if named_key(keycode) is Some {
        Some(
            KeyEvent::new_spec(
                named_key(keycode)->0,
                if keycode == KEY_BACKTAB {
                    Modifiers { shift: true, ..m }
                } else {
                    m
                },
            ),
        )
    } else if m.ctrl && ctrl_key(keycode, physical, u, m) is Some {
        ctrl_key(keycode, physical, u, m)
    } else if u == 0 {
        match fallback {
            Some(c) => Some(KeyEvent::new_spec(Key::Char(c), typed_modifiers(m, altgr))),
            None => None,
        }
    } else if scalar_char(u) is None || unicode_control(u as char) || is_dead_key_spec(
        u as char,
    ) {
        None
    } else {
        let c = u as char;
        let tm = typed_modifiers(m, altgr);
        let e = KeyEvent::new_spec(Key::Char(c), tm);
        if (c as u32) >= 0x80 && !tm.ctrl && fallback is Some {
            Some(KeyEvent { latin: Some(Key::Char(fallback->0)), ..e })
        } else {
            Some(e)
        }
    }
}

/// Translate the parameters of a key press into an engine event, following
/// [`translate`].
pub fn translate_key(
    keycode: i32,
    physical_keycode: i32,
    unicode: u32,
    ctrl: bool,
    alt: bool,
    shift: bool,
    meta: bool,
) -> (r: Option<KeyEvent>)
    ensures
        r == translate(keycode, physical_keycode, unicode, ctrl, alt, shift, meta),
{
    let uc = char_from_u32(unicode);
    let printable = match uc {
        Some(c) => unicode != 0 && c >= ' ' && !char_is_control(c),
        None => false,
    };
    let is_altgr_windows = ctrl && alt && !meta && printable;
    let (ctrl, alt) = if is_altgr_windows {
        (false, false)
    } else {
        (ctrl, alt)
    };
    let mut is_altgr_linux = false;
    if !is_altgr_windows && alt && !ctrl && !meta && printable {
        if let Some(c) = uc {
            let unshifted_match = match physical_to_ascii(physical_keycode, false) {
                Some(b) => b == c,
                None => false,
            };
            let shifted_match = match physical_to_ascii(physical_keycode, true) {
                Some(b) => b == c,
                None => false,
            };
            let logical_match = if keycode >= 0 {
                match char_from_u32(keycode as u32) {
                    Some(lc) => ascii_lower(lc) == ascii_lower(c),
                    None => false,
                }
            } else {
                false
            };
            is_altgr_linux = !unshifted_match && !shifted_match && !logical_match;
        }
    }
    let is_altgr = is_altgr_windows || is_altgr_linux;
    let alt = if is_altgr_linux {
        false
    } else {
        alt
    };
    let modifiers = Modifiers { ctrl, alt, shift, meta };

    if keycode == KEY_SHIFT || keycode == KEY_CTRL || keycode == KEY_ALT || keycode == KEY_META
        || keycode == KEY_CAPSLOCK || keycode == KEY_NUMLOCK || keycode == KEY_SCROLLLOCK {
        return None;
    }
    if let Some(key) = get_named_key(keycode) {
        let mods = if keycode == KEY_BACKTAB {
            modifiers.union(Modifiers::shift())
        } else {
            modifiers
        };
        return Some(KeyEvent::new(key, mods));
    }
    if modifiers.ctrl {
        if let Some(event) = resolve_ctrl_key(keycode, physical_keycode, unicode, modifiers) {
            return Some(event);
        }
    }
    let plain = !is_altgr && !modifiers.ctrl && !modifiers.alt && !modifiers.meta;
    let typed = if plain {
        modifiers.difference(Modifiers::shift())
    } else {
        modifiers
    };
    if unicode == 0 {
        return match physical_to_ascii(physical_keycode, shift) {
            Some(ch) => Some(KeyEvent::new(Key::Char(ch), typed)),
            None => None,
        };
    }
    let ch = match uc {
        Some(c) => c,
        None => {
            return None;
        },
    };
    if char_is_control(ch) || is_dead_key_char(ch) {
        return None;
    }
    let event = KeyEvent::new(Key::Char(ch), typed);
    if (ch as u32) >= 0x80 && !typed.ctrl {
        if let Some(latin_ch) = physical_to_ascii(physical_keycode, shift) {
            return Some(event.with_latin(Key::Char(latin_ch)));
        }
    }
    Some(event)
}

// ---------------------------------------------------------------------------
// Laws
// ---------------------------------------------------------------------------

/// A modifier key pressed alone produces no event.
pub proof fn lemma_bare_modifier_ignored(
    keycode: i32,
    physical: i32,
    u: u32,
    ctrl: bool,
    alt: bool,
    shift: bool,
    meta: bool,
)
    requires
        is_bare_modifier(keycode),
    ensures
        translate(keycode, physical, u, ctrl, alt, shift, meta) is None,
{
}

/// A named key is reported as that key, whatever character comes with it,
/// with no Latin equivalent; Backtab always carries Shift.
pub proof fn lemma_named_key_wins(
    keycode: i32,
    physical: i32,
    u: u32,
    ctrl: bool,
    alt: bool,
    shift: bool,
    meta: bool,
)
    requires
        named_key(keycode) is Some,
    ensures
        translate(keycode, physical, u, ctrl, alt, shift, meta) is Some,
        translate(keycode, physical, u, ctrl, alt, shift, meta)->0.key == named_key(keycode)->0,
        translate(keycode, physical, u, ctrl, alt, shift, meta)->0.latin is None,
        keycode == KEY_BACKTAB ==> translate(
            keycode,
            physical,
            u,
            ctrl,
            alt,
            shift,
            meta,
        )->0.modifiers.shift,
{
}

/// Typing without Ctrl, Alt or Meta gives a character with no modifier at
/// all: Shift is carried by the character itself.
pub proof fn lemma_plain_typing_has_no_modifiers(keycode: i32, physical: i32, u: u32, shift: bool)
    requires
        named_key(keycode) is None,
        translate(keycode, physical, u, false, false, shift, false) is Some,
    ensures
        translate(keycode, physical, u, false, false, shift, false)->0.key is Char,
        translate(keycode, physical, u, false, false, shift, false)->0.modifiers == (Modifiers {
            ctrl: false,
            alt: false,
            shift: false,
            meta: false,
        }),
{
}

/// Outside the named keys, every character emitted is printable ASCII
/// (space included) or the key press's own non-control character.
pub proof fn lemma_emitted_characters_printable(
    keycode: i32,
    physical: i32,
    u: u32,
    ctrl: bool,
    alt: bool,
    shift: bool,
    meta: bool,
)
    requires
        named_key(keycode) is None,
        translate(keycode, physical, u, ctrl, alt, shift, meta) is Some,
    ensures
        ({
            let k = translate(keycode, physical, u, ctrl, alt, shift, meta)->0.key;
            &&& k is Char
            &&& is_ascii_graphic(k->Char_0) || k->Char_0 == ' ' || (k->Char_0 as u32 == u && !unicode_control(
                k->Char_0,
            ))
        }),
{
}

/// A Latin equivalent is recorded only for a non-ASCII character typed
/// without Ctrl, and it is the physical key's US-layout character.
pub proof fn lemma_latin_only_for_non_ascii(
    keycode: i32,
    physical: i32,
    u: u32,
    ctrl: bool,
    alt: bool,
    shift: bool,
    meta: bool,
)
    requires
        translate(keycode, physical, u, ctrl, alt, shift, meta) is Some,
        translate(keycode, physical, u, ctrl, alt, shift, meta)->0.latin is Some,
    ensures
        ({
            let e = translate(keycode, physical, u, ctrl, alt, shift, meta)->0;
            &&& e.key is Char
            &&& e.key->Char_0 as u32 >= 0x80
            &&& !e.modifiers.ctrl
            &&& physical_ascii(physical, shift) is Some
            &&& e.latin == Some(Key::Char(physical_ascii(physical, shift)->0))
        }),
{
}

/// Ctrl with a letter key, Alt not held, gives the lowercase letter with
/// the modifiers held.
pub proof fn lemma_ctrl_letter(keycode: i32, physical: i32, u: u32, shift: bool, meta: bool)
    requires
        is_letter_code(keycode),
    ensures
        translate(keycode, physical, u, true, false, shift, meta) == Some(
            KeyEvent::new_spec(
                Key::Char((keycode + 32) as char),
                Modifiers { ctrl: true, alt: false, shift, meta },
            ),
        ),
{
}

/// On a non-Latin layout, Ctrl with a key whose physical place is a letter
/// gives that lowercase letter (the key being neither named nor Space).
pub proof fn lemma_ctrl_physical_letter(
    keycode: i32,
    physical: i32,
    u: u32,
    shift: bool,
    meta: bool,
)
    requires
        is_letter_code(physical),
        named_key(keycode) is None,
        !is_bare_modifier(keycode),
        keycode != KEY_SPACE,
        !is_letter_code(keycode),
    ensures
        translate(keycode, physical, u, true, false, shift, meta) == Some(
            KeyEvent::new_spec(
                Key::Char((physical + 32) as char),
                Modifiers { ctrl: true, alt: false, shift, meta },
            ),
        ),
{
}

} // verus!
