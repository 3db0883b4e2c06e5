//! Keys, modifier sets and key events as the Vim engine receives them.

use vstd::prelude::*;

verus! {

/// A key the engine understands: a character or one of the named keys.
#[derive(Clone, Copy, Debug, PartialEq, Eq, Structural, Hash)]
pub enum Key {
    Char(char),
    Escape,
    Enter,
    Backspace,
    Tab,
    Delete,
    Insert,
    Up,
    Down,
    Left,
    Right,
    Home,
    End,
    PageUp,
    PageDown,
    F(u8),
}

/// A set of held modifier keys.
#[derive(Clone, Copy, Debug, PartialEq, Eq, Structural, Hash)]
pub struct Modifiers {
    pub ctrl: bool,
    pub alt: bool,
    pub shift: bool,
    pub meta: bool,
}

impl Modifiers {
    /// No modifier held.
    pub fn none() -> (m: Modifiers)
        ensures
            m == (Modifiers { ctrl: false, alt: false, shift: false, meta: false }),
    {
        Modifiers { ctrl: false, alt: false, shift: false, meta: false }
    }

    /// Control alone.
    pub fn ctrl() -> (m: Modifiers)
        ensures
            m == (Modifiers { ctrl: true, alt: false, shift: false, meta: false }),
    {
        Modifiers { ctrl: true, alt: false, shift: false, meta: false }
    }

    /// Alt alone.
    pub fn alt() -> (m: Modifiers)
        ensures
            m == (Modifiers { ctrl: false, alt: true, shift: false, meta: false }),
    {
        Modifiers { ctrl: false, alt: true, shift: false, meta: false }
    }

    /// Shift alone.
    pub fn shift() -> (m: Modifiers)
        ensures
            m == (Modifiers { ctrl: false, alt: false, shift: true, meta: false }),
    {
        Modifiers { ctrl: false, alt: false, shift: true, meta: false }
    }

    /// Meta (Command / Super) alone.
    pub fn meta() -> (m: Modifiers)
        ensures
            m == (Modifiers { ctrl: false, alt: false, shift: false, meta: true }),
    {
        Modifiers { ctrl: false, alt: false, shift: false, meta: true }
    }

    pub open spec fn union_spec(self, o: Modifiers) -> Modifiers {
        Modifiers {
            ctrl: self.ctrl || o.ctrl,
            alt: self.alt || o.alt,
            shift: self.shift || o.shift,
            meta: self.meta || o.meta,
        }
    }

    pub open spec fn difference_spec(self, o: Modifiers) -> Modifiers {
        Modifiers {
            ctrl: self.ctrl && !o.ctrl,
            alt: self.alt && !o.alt,
            shift: self.shift && !o.shift,
            meta: self.meta && !o.meta,
        }
    }

    /// The modifiers held in either set.
    pub fn union(self, o: Modifiers) -> (m: Modifiers)
        ensures
            m == self.union_spec(o),
    {
        Modifiers {
            ctrl: self.ctrl || o.ctrl,
            alt: self.alt || o.alt,
            shift: self.shift || o.shift,
            meta: self.meta || o.meta,
        }
    }

    /// The modifiers of `self` that are not in `o`.
    pub fn difference(self, o: Modifiers) -> (m: Modifiers)
        ensures
            m == self.difference_spec(o),
    {
        Modifiers {
            ctrl: self.ctrl && !o.ctrl,
            alt: self.alt && !o.alt,
            shift: self.shift && !o.shift,
            meta: self.meta && !o.meta,
        }
    }

    /// Whether every modifier of `o` is held in `self`.
    pub fn contains(self, o: Modifiers) -> (r: bool)
        ensures
            r == ((o.ctrl ==> self.ctrl) && (o.alt ==> self.alt) && (o.shift ==> self.shift) && (
            o.meta ==> self.meta)),
    {
        (!o.ctrl || self.ctrl) && (!o.alt || self.alt) && (!o.shift || self.shift) && (!o.meta
            || self.meta)
    }

    /// Whether some modifier of `o` is held in `self`.
    pub fn intersects(self, o: Modifiers) -> (r: bool)
        ensures
            r == ((o.ctrl && self.ctrl) || (o.alt && self.alt) || (o.shift && self.shift) || (
            o.meta && self.meta)),
    {
        (o.ctrl && self.ctrl) || (o.alt && self.alt) || (o.shift && self.shift) || (o.meta
            && self.meta)
    }

    /// Whether no modifier is held.
    pub fn is_empty(self) -> (r: bool)
        ensures
            r == (!self.ctrl && !self.alt && !self.shift && !self.meta),
    {
        !self.ctrl && !self.alt && !self.shift && !self.meta
    }
}

/// A key press: the key, the modifiers held with it, and, for a character
/// typed on a non-Latin layout, the key at the same place on a US layout.
///
/// Two events are equal when their keys and modifiers are: the Latin
/// equivalent is a hint for mapping lookup, not part of the key press.
#[derive(Clone, Copy, Debug)]
pub struct KeyEvent {
    pub key: Key,
    pub modifiers: Modifiers,
    pub latin: Option<Key>,
}

impl PartialEq for KeyEvent {
    fn eq(&self, other: &KeyEvent) -> (r: bool) {
        self.key == other.key && self.modifiers == other.modifiers
    }
}

impl Eq for KeyEvent {}

impl vstd::std_specs::cmp::PartialEqSpecImpl for KeyEvent {
    open spec fn obeys_eq_spec() -> bool {
        true
    }

    open spec fn eq_spec(&self, other: &KeyEvent) -> bool {
        self.key == other.key && self.modifiers == other.modifiers
    }
}

impl KeyEvent {
    pub open spec fn new_spec(key: Key, modifiers: Modifiers) -> KeyEvent {
        KeyEvent { key, modifiers, latin: None }
    }

    /// An event without a Latin equivalent.
    pub fn new(key: Key, modifiers: Modifiers) -> (e: KeyEvent)
        ensures
            e == KeyEvent::new_spec(key, modifiers),
    {
        KeyEvent { key, modifiers, latin: None }
    }

    /// The character `c` with no modifier.
    pub fn char(c: char) -> (e: KeyEvent)
        ensures
            e == KeyEvent::new_spec(Key::Char(c), Modifiers { ctrl: false, alt: false, shift: false, meta: false }),
    {
        KeyEvent::new(Key::Char(c), Modifiers::none())
    }

    /// Alt with the character `c`.
    pub fn alt(c: char) -> (e: KeyEvent)
        ensures
            e == KeyEvent::new_spec(Key::Char(c), Modifiers { ctrl: false, alt: true, shift: false, meta: false }),
    {
        KeyEvent::new(Key::Char(c), Modifiers::alt())
    }

    /// Escape with no modifier.
    pub fn escape() -> (e: KeyEvent)
        ensures
            e == KeyEvent::new_spec(Key::Escape, Modifiers { ctrl: false, alt: false, shift: false, meta: false }),
    {
        KeyEvent::new(Key::Escape, Modifiers::none())
    }

    /// Ctrl with the character `c`.
    pub fn ctrl(c: char) -> (e: KeyEvent)
        ensures
            e == KeyEvent::new_spec(Key::Char(c), Modifiers { ctrl: true, alt: false, shift: false, meta: false }),
    {
        KeyEvent::new(Key::Char(c), Modifiers::ctrl())
    }

    /// The same event, carrying `latin` as its Latin equivalent.
    pub fn with_latin(self, latin: Key) -> (e: KeyEvent)
        ensures
            e == (KeyEvent { latin: Some(latin), ..self }),
    {
        KeyEvent { key: self.key, modifiers: self.modifiers, latin: Some(latin) }
    }

    /// The key pressed.
    pub fn key(&self) -> (k: Key)
        ensures
            k == self.key,
    {
        self.key
    }

    /// The modifiers held.
    pub fn modifiers(&self) -> (m: Modifiers)
        ensures
            m == self.modifiers,
    {
        self.modifiers
    }

    /// The key at the same place on a US layout, where one was recorded.
    pub fn latin_key(&self) -> (k: Option<Key>)
        ensures
            k == self.latin,
    {
        self.latin
    }
}

/// The event that key mappings are matched against: a recorded Latin
/// equivalent takes the place of the typed key, with the same modifiers.
pub fn normalize_key_for_mapping(key: KeyEvent) -> (r: KeyEvent)
    ensures
        r == (match key.latin {
            Some(l) => KeyEvent::new_spec(l, key.modifiers),
            None => key,
        }),
{
    match key.latin_key() {
        Some(latin) => KeyEvent::new(latin, key.modifiers()),
        None => key,
    }
}

} // verus!
