//! Key presses, as the terminal reports them.
use vstd::prelude::*;

verus! {

/// Which key.
#[derive(Debug, Clone, Copy, PartialEq, Eq, Structural)]
pub enum KeyCode {
    Char(char),
    Enter,
    Esc,
    Tab,
    BackTab,
    Backspace,
    Delete,
    Left,
    Right,
    Up,
    Down,
    Home,
    End,
    /// A key that nothing here is bound to.
    Other,
}

/// A key and what was held down with it.
#[derive(Debug, Clone, Copy, PartialEq, Eq, Structural)]
pub struct KeyEvent {
    pub code: KeyCode,
    pub control: bool,
    pub alt: bool,
}

impl KeyEvent {
    /// The key by itself.
    pub fn plain(code: KeyCode) -> (r: KeyEvent)
        ensures
            r == (KeyEvent { code, control: false, alt: false }),
    {
        KeyEvent { code, control: false, alt: false }
    }

    /// The key with Control held down.
    pub fn ctrl(code: KeyCode) -> (r: KeyEvent)
        ensures
            r == (KeyEvent { code, control: true, alt: false }),
    {
        KeyEvent { code, control: true, alt: false }
    }
}

} // verus!
