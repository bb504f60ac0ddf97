//! Key events as the editor reads them: a key code and a set of modifier
//! flags.
use vstd::prelude::*;

verus! {

/// Which key was pressed.
#[derive(Clone, Copy, Debug, PartialEq, Eq)]
pub enum KeyCode {
    Backspace,
    Enter,
    Left,
    Right,
    Up,
    Down,
    Home,
    End,
    PageUp,
    PageDown,
    Tab,
    BackTab,
    Delete,
    Insert,
    F(u8),
    Char(char),
    Null,
    Esc,
    CapsLock,
    ScrollLock,
    NumLock,
    PrintScreen,
    Pause,
    Menu,
    KeypadBegin,
    Media,
    Modifier,
}

/// A set of modifier keys, one bit each.
#[derive(Clone, Copy, Debug, PartialEq, Eq)]
pub struct KeyModifiers(u8);

impl KeyModifiers {
    /// The set holding only the Shift modifier.
    pub fn shift() -> (m: KeyModifiers)
        ensures
            m.spec_bits() == 0b0000_0001u8,
    {
        KeyModifiers(0b0000_0001)
    }

    /// The set holding only the Control modifier.
    pub fn control() -> (m: KeyModifiers)
        ensures
            m.spec_bits() == 0b0000_0010u8,
    {
        KeyModifiers(0b0000_0010)
    }

    /// The set holding only the Alt modifier.
    pub fn alt() -> (m: KeyModifiers)
        ensures
            m.spec_bits() == 0b0000_0100u8,
    {
        KeyModifiers(0b0000_0100)
    }

    /// The set holding only the Super modifier.
    pub fn super_key() -> (m: KeyModifiers)
        ensures
            m.spec_bits() == 0b0000_1000u8,
    {
        KeyModifiers(0b0000_1000)
    }

    /// The set holding only the Hyper modifier.
    pub fn hyper() -> (m: KeyModifiers)
        ensures
            m.spec_bits() == 0b0001_0000u8,
    {
        KeyModifiers(0b0001_0000)
    }

    /// The set holding only the Meta modifier.
    pub fn meta() -> (m: KeyModifiers)
        ensures
            m.spec_bits() == 0b0010_0000u8,
    {
        KeyModifiers(0b0010_0000)
    }

    /// The bits of the set.
    pub closed spec fn spec_bits(self) -> u8 {
        self.0
    }

    /// The set with no modifier.
    pub fn empty() -> (m: KeyModifiers)
        ensures
            m.spec_bits() == 0,
    {
        KeyModifiers(0)
    }

    /// The set with exactly the given bits.
    pub fn from_bits_retain(bits: u8) -> (m: KeyModifiers)
        ensures
            m.spec_bits() == bits,
    {
        KeyModifiers(bits)
    }

    /// The bits of the set.
    pub fn bits(&self) -> (b: u8)
        ensures
            b == self.spec_bits(),
    {
        self.0
    }

    /// Whether every modifier of `other` is in `self`.
    pub fn contains(&self, other: KeyModifiers) -> (r: bool)
        ensures
            r == (self.spec_bits() & other.spec_bits() == other.spec_bits()),
    {
        self.0 & other.0 == other.0
    }

    /// The modifiers of `self` that are not in `other`.
    pub fn difference(&self, other: KeyModifiers) -> (m: KeyModifiers)
        ensures
            m.spec_bits() == self.spec_bits() & !other.spec_bits(),
    {
        KeyModifiers(self.0 & !other.0)
    }

    /// Whether the set holds no modifier.
    pub fn is_empty(&self) -> (r: bool)
        ensures
            r == (self.spec_bits() == 0),
    {
        self.0 == 0
    }
}

/// A key press: the key and the modifiers held with it.
#[derive(Clone, Copy, Debug, PartialEq, Eq)]
pub struct KeyEvent {
    pub code: KeyCode,
    pub modifiers: KeyModifiers,
}

impl KeyEvent {
    pub fn new(code: KeyCode, modifiers: KeyModifiers) -> (k: KeyEvent)
        ensures
            k.code == code,
            k.modifiers == modifiers,
    {
        KeyEvent { code, modifiers }
    }
}

} // verus!
