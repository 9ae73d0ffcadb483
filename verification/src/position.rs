use vstd::prelude::*;

verus! {

/// An immutable two-dimensional grid coordinate: `x` is a column (a grapheme
/// offset within a visual row), `y` is a visual-row index.
#[derive(Debug, Copy, Clone, Eq, PartialEq, Structural)]
pub struct Position {
    x: usize,
    y: usize,
}

impl View for Position {
    type V = (nat, nat);

    closed spec fn view(&self) -> (nat, nat) {
        (self.x as nat, self.y as nat)
    }
}

impl Position {
    pub fn new(x: usize, y: usize) -> (p: Position)
        ensures
            p@ == (x as nat, y as nat),
    {
        Position { x, y }
    }

    pub fn x(&self) -> (r: usize)
        ensures
            r == self@.0,
    {
        self.x
    }

    pub fn y(&self) -> (r: usize)
        ensures
            r == self@.1,
    {
        self.y
    }

    /// Create a new position from this one with the specified column.
    pub fn set_x(&self, x: usize) -> (p: Position)
        ensures
            p@ == (x as nat, self@.1),
    {
        Position { x, y: self.y }
    }

    /// Create a new position from this one with the specified row.
    pub fn set_y(&self, y: usize) -> (p: Position)
        ensures
            p@ == (self@.0, y as nat),
    {
        Position { x: self.x, y }
    }

    /// Create a new position from this one with the columns modified as
    /// specified. The caller keeps the result within range: the shifted
    /// column may not go negative nor leave the signed 16-bit range.
    pub fn add_x(&self, diff_x: i16) -> (p: Position)
        requires
            self@.0 <= i16::MAX,
            0 <= self@.0 + diff_x <= i16::MAX,
        ensures
            p@.0 == self@.0 + diff_x,
            p@.1 == self@.1,
    {
        Position { x: (self.x as i16 + diff_x) as usize, y: self.y }
    }

    /// Create a new position from this one with the rows modified as
    /// specified. The same range conditions hold as for `add_x`.
    pub fn add_y(&self, diff_y: i16) -> (p: Position)
        requires
            self@.1 <= i16::MAX,
            0 <= self@.1 + diff_y <= i16::MAX,
        ensures
            p@.0 == self@.0,
            p@.1 == self@.1 + diff_y,
    {
        Position { x: self.x, y: (self.y as i16 + diff_y) as usize }
    }
}

impl Default for Position {
    fn default() -> (p: Position)
        ensures
            p@ == (0nat, 0nat),
    {
        Position::new(0, 0)
    }
}

} // verus!
