use vstd::prelude::*;

verus! {

/// The key that was pressed.
#[derive(Clone, Copy, PartialEq, Eq, Structural, Debug)]
pub enum KeyCode {
    Char(char),
    F(u8),
    Backspace,
    Enter,
    Left,
    Right,
    Up,
    Down,
    Tab,
    Delete,
    Home,
    End,
    PageUp,
    PageDown,
    Esc,
    /// Any other key.
    Null,
}

/// The Shift modifier bit.
pub const SHIFT: u8 = 0b0000_0001;

/// The Control modifier bit.
pub const CONTROL: u8 = 0b0000_0010;

/// The Alt modifier bit.
pub const ALT: u8 = 0b0000_0100;

/// A key press: the key and the modifier keys held with it, as bits
/// (`SHIFT`, `CONTROL`, `ALT`, and higher bits for Super, Hyper and Meta).
#[derive(Clone, Copy, PartialEq, Eq, Structural, Debug)]
pub struct KeyInput {
    pub code: KeyCode,
    pub modifiers: u8,
}

impl KeyInput {
    /// A key press with no modifier held.
    pub fn plain(code: KeyCode) -> (k: KeyInput)
        ensures
            k == (KeyInput { code, modifiers: 0 }),
    {
        KeyInput { code, modifiers: 0 }
    }

    /// A key press with the given modifier bits.
    pub fn with_modifiers(code: KeyCode, modifiers: u8) -> (k: KeyInput)
        ensures
            k == (KeyInput { code, modifiers }),
    {
        KeyInput { code, modifiers }
    }

    /// Whether Control is held.
    pub fn ctrl(&self) -> (b: bool)
        ensures
            b == (self.modifiers & CONTROL != 0),
    {
        self.modifiers & CONTROL != 0
    }

    /// Whether Alt is held.
    pub fn alt(&self) -> (b: bool)
        ensures
            b == (self.modifiers & ALT != 0),
    {
        self.modifiers & ALT != 0
    }

    /// Whether Shift is held.
    pub fn shift(&self) -> (b: bool)
        ensures
            b == (self.modifiers & SHIFT != 0),
    {
        self.modifiers & SHIFT != 0
    }
}

} // verus!
