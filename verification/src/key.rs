//! Keys and modifier states of keyboard events.

use vstd::prelude::*;

verus! {

/// A key on the keyboard.
#[derive(Debug, Clone, Copy, PartialEq, Eq, Structural, Hash)]
pub enum Key {
    A,
    B,
    C,
    D,
    E,
    F,
    G,
    H,
    I,
    J,
    K,
    L,
    M,
    N,
    O,
    P,
    Q,
    R,
    S,
    T,
    U,
    V,
    W,
    X,
    Y,
    Z,
    Digit0,
    Digit1,
    Digit2,
    Digit3,
    Digit4,
    Digit5,
    Digit6,
    Digit7,
    Digit8,
    Digit9,
    Enter,
    Space,
    Tab,
    Escape,
    Backspace,
    Delete,
    ArrowLeft,
    ArrowRight,
    ArrowUp,
    ArrowDown,
    Home,
    End,
    PageUp,
    PageDown,
}

/// The modifier keys held during a key event, as a set of flags.
#[derive(Debug, Clone, Copy, PartialEq, Eq, Structural, Hash)]
pub struct Modifiers {
    pub bits: u8,
}

impl Modifiers {
    pub fn empty() -> (r: Self)
        ensures
            r.bits == 0,
    {
        Modifiers { bits: 0 }
    }

    pub fn shift() -> (r: Self)
        ensures
            r.bits == 1,
    {
        Modifiers { bits: 1 }
    }

    pub fn ctrl() -> (r: Self)
        ensures
            r.bits == 2,
    {
        Modifiers { bits: 2 }
    }

    pub fn alt() -> (r: Self)
        ensures
            r.bits == 4,
    {
        Modifiers { bits: 4 }
    }

    /// The platform key (Command, Windows).
    pub fn meta() -> (r: Self)
        ensures
            r.bits == 8,
    {
        Modifiers { bits: 8 }
    }

    /// Both sets of flags.
    pub fn union(self, other: Self) -> (r: Self)
        ensures
            r.bits == self.bits | other.bits,
    {
        Modifiers { bits: self.bits | other.bits }
    }

    /// Whether every flag of `other` is set.
    pub fn contains(self, other: Self) -> (r: bool)
        ensures
            r == (self.bits & other.bits == other.bits),
    {
        self.bits & other.bits == other.bits
    }
}

/// A key together with the modifiers held.
#[derive(Debug, Clone, Copy, PartialEq, Eq, Structural, Hash)]
pub struct Keystroke {
    pub key: Key,
    pub modifiers: Modifiers,
}

} // verus!
