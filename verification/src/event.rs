//! What the display reads of its input: keys, and whether they went down.

use vstd::prelude::*;

verus! {

/// The keys that the display tells apart.
#[derive(Clone, Copy, Debug, PartialEq, Eq, Structural)]
pub enum Key {
    /// The escape key.
    Esc,
    /// A key that stands for a character.
    Char(char),
    /// Any other key.
    Other,
}

/// What happened to a key.
#[derive(Clone, Copy, Debug, PartialEq, Eq, Structural)]
pub enum KeyKind {
    /// The key went down.
    Press,
    /// The key is held down and repeats.
    Repeat,
    /// The key came up.
    Release,
}

/// A key, and what happened to it.
#[derive(Clone, Copy, Debug, PartialEq, Eq, Structural)]
pub struct KeyEvent {
    pub code: Key,
    pub kind: KeyKind,
}

/// One event of the input source.
#[derive(Clone, Copy, Debug, PartialEq, Eq, Structural)]
pub enum Event {
    /// Something happened to a key.
    Key(KeyEvent),
    /// Anything else: the mouse, the size of the screen, the focus, a paste.
    Other,
}

impl KeyEvent {
    /// The event that `code` went down.
    pub fn press(code: Key) -> (event: KeyEvent)
        ensures
            event == (KeyEvent { code, kind: KeyKind::Press }),
    {
        KeyEvent { code, kind: KeyKind::Press }
    }
}

} // verus!
