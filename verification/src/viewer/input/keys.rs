//! Keys and modifiers, as the viewer sees them.
use vstd::prelude::*;

verus! {

/// The modifier keys held with a key or a mouse event.
#[derive(Debug, Clone, Copy, PartialEq, Eq, Structural)]
pub struct KeyModifiers {
    pub shift: bool,
    pub control: bool,
    pub alt: bool,
    /// Super, Hyper or Meta.
    pub others: bool,
}

impl KeyModifiers {
    pub fn none() -> (m: Self)
        ensures
            !m.shift && !m.control && !m.alt && !m.others,
    {
        KeyModifiers { shift: false, control: false, alt: false, others: false }
    }
}

/// The keys the viewer tells apart.
#[derive(Debug, Clone, Copy, PartialEq, Eq, Structural)]
pub enum KeyCode {
    Char(char),
    Enter,
    Backspace,
    Esc,
    Up,
    Down,
    Left,
    Right,
    PageUp,
    PageDown,
    Home,
    End,
    Other,
}

/// A digit typed without Control or Alt starts or extends a line number.
pub fn accepts_jump_digit(ch: char, modifiers: KeyModifiers) -> (r: bool)
    ensures
        r == ('0' <= ch <= '9' && !modifiers.control && !modifiers.alt),
{
    '0' <= ch && ch <= '9' && !modifiers.control && !modifiers.alt
}

/// Text typed without Control or Alt goes into the search prompt.
pub fn accepts_search_char(modifiers: KeyModifiers) -> (r: bool)
    ensures
        r == (!modifiers.control && !modifiers.alt),
{
    !modifiers.control && !modifiers.alt
}

/// A key pressed without Control or Alt.
pub fn plain_key(modifiers: KeyModifiers) -> (r: bool)
    ensures
        r == (!modifiers.control && !modifiers.alt),
{
    !modifiers.control && !modifiers.alt
}

} // verus!
