//! Key events as the settings overlay reads them, and the terminal library's
//! modifier-set operations.
use vstd::prelude::*;
use crossterm::event::KeyModifiers;

verus! {

/// The key of a key event.
#[derive(Clone, Copy, Debug, PartialEq, Eq, Structural)]
pub enum KeyCode {
    Backspace,
    Enter,
    Left,
    Right,
    Up,
    Down,
    Home,
    End,
    PageUp,
    PageDown,
    Tab,
    BackTab,
    Delete,
    Insert,
    F(u8),
    Char(char),
    Null,
    Esc,
    /// Any other key (media, lock and modifier keys and the like).
    Other,
}

/// Modifier bit of the Shift key.
pub const SHIFT: u8 = 1;

/// Modifier bit of the Control key.
pub const CONTROL: u8 = 2;

/// Modifier bit of the Alt key.
pub const ALT: u8 = 4;

/// Modifier bit of the Super key.
pub const SUPER: u8 = 8;

/// Modifier bit of the Hyper key.
pub const HYPER: u8 = 16;

/// Modifier bit of the Meta key.
pub const META: u8 = 32;

/// A key press as delivered to the client shell: the key, its modifier bits
/// (as the terminal library encodes them) and the text the press generated,
/// if the terminal reported any.
#[derive(Clone, Debug)]
pub struct TerminalKey {
    pub code: KeyCode,
    pub modifiers: u8,
    pub generated_text: Option<String>,
}

impl TerminalKey {
    /// A key press with no generated text.
    pub fn new(code: KeyCode, modifiers: u8) -> (key: TerminalKey)
        ensures
            key.code == code,
            key.modifiers == modifiers,
            key.generated_text is None,
    {
        TerminalKey { code, modifiers, generated_text: None }
    }
}

/// `KeyModifiers::is_empty`: true exactly when no modifier bit is set.
#[verifier::external_body]
pub(crate) fn modifiers_is_empty(modifiers: u8) -> (r: bool)
    ensures
        r == (modifiers == 0),
{
    KeyModifiers::from_bits_retain(modifiers).is_empty()
}

/// `KeyModifiers::contains`: true exactly when every bit of `other` is set in
/// `modifiers`.
#[verifier::external_body]
pub(crate) fn modifiers_contains(modifiers: u8, other: u8) -> (r: bool)
    ensures
        r == (modifiers & other == other),
{
    KeyModifiers::from_bits_retain(modifiers).contains(KeyModifiers::from_bits_retain(other))
}

/// `KeyModifiers::difference`: the bits of `modifiers` that are not in `other`.
#[verifier::external_body]
pub(crate) fn modifiers_difference(modifiers: u8, other: u8) -> (r: u8)
    ensures
        r == modifiers & !other,
{
    KeyModifiers::from_bits_retain(modifiers).difference(KeyModifiers::from_bits_retain(other)).bits()
}

} // verus!
