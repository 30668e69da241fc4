//! The decoded key events the overlays react to.

use vstd::prelude::*;

verus! {

/// A key, without its modifiers.
#[derive(Debug, Clone, Copy, PartialEq, Eq, Structural)]
pub enum Key {
    Char(char),
    Enter,
    Esc,
    Backspace,
    Tab,
    Up,
    Down,
    Left,
    Right,
    F(u8),
}

/// The modifier keys held with a key.
#[derive(Debug, Clone, Copy, PartialEq, Eq, Structural)]
pub struct Modifiers {
    pub shift: bool,
    pub ctrl: bool,
    pub alt: bool,
    pub super_key: bool,
}

impl Modifiers {
    /// No modifier.
    pub fn none() -> (res: Self)
        ensures
            res == (Modifiers { shift: false, ctrl: false, alt: false, super_key: false }),
    {
        Modifiers { shift: false, ctrl: false, alt: false, super_key: false }
    }

    /// Shift alone.
    pub fn shift() -> (res: Self)
        ensures
            res == (Modifiers { shift: true, ctrl: false, alt: false, super_key: false }),
    {
        Modifiers { shift: true, ctrl: false, alt: false, super_key: false }
    }

    /// Ctrl alone.
    pub fn ctrl() -> (res: Self)
        ensures
            res == (Modifiers { shift: false, ctrl: true, alt: false, super_key: false }),
    {
        Modifiers { shift: false, ctrl: true, alt: false, super_key: false }
    }

    /// Alt alone.
    pub fn alt() -> (res: Self)
        ensures
            res == (Modifiers { shift: false, ctrl: false, alt: true, super_key: false }),
    {
        Modifiers { shift: false, ctrl: false, alt: true, super_key: false }
    }

    /// Super (Cmd) alone.
    pub fn super_key() -> (res: Self)
        ensures
            res == (Modifiers { shift: false, ctrl: false, alt: false, super_key: true }),
    {
        Modifiers { shift: false, ctrl: false, alt: false, super_key: true }
    }

    /// These modifiers with Alt added.
    pub fn with_alt(self) -> (res: Self)
        ensures
            res == (Modifiers { alt: true, ..self }),
    {
        Modifiers { alt: true, ..self }
    }

    pub fn contains_ctrl(&self) -> (res: bool)
        ensures
            res == self.ctrl,
    {
        self.ctrl
    }

    pub fn contains_alt(&self) -> (res: bool)
        ensures
            res == self.alt,
    {
        self.alt
    }

    pub fn contains_super(&self) -> (res: bool)
        ensures
            res == self.super_key,
    {
        self.super_key
    }
}

/// A key with its modifiers.
#[derive(Debug, Clone, Copy, PartialEq, Eq, Structural)]
pub struct KeyEvent {
    pub key: Key,
    pub modifiers: Modifiers,
}

impl KeyEvent {
    /// `key` with `modifiers`.
    pub fn new(key: Key, modifiers: Modifiers) -> (res: Self)
        ensures
            res == (KeyEvent { key, modifiers }),
    {
        KeyEvent { key, modifiers }
    }

    /// `key` without modifiers.
    pub fn plain(key: Key) -> (res: Self)
        ensures
            res == (KeyEvent { key, modifiers: Modifiers::none_spec() }),
    {
        KeyEvent { key, modifiers: Modifiers::none() }
    }
}

impl Modifiers {
    /// No modifier, in contracts.
    pub open spec fn none_spec() -> Self {
        Modifiers { shift: false, ctrl: false, alt: false, super_key: false }
    }
}

} // verus!
