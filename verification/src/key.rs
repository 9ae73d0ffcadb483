use vstd::prelude::*;

verus! {

/// Possible key inputs of the wrap-aware editing engine.
pub enum Key {
    Char(char),
    Backspace,
    Delete,
    Enter,
    Up,
    Down,
    Left,
    Right,
    Home,
    End,
}

} // verus!
