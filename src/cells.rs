use vstd::prelude::*;
use vstd::string::*;

verus! {

/// The state of one square of the grid.
#[derive(Clone, Copy, Debug, PartialEq, Eq, Structural)]
pub enum Cell {
    Dead,
    Alive,
}

/// The numeric encoding of a cell: 0 for `Dead`, 1 for `Alive`.
pub open spec fn encoding(c: Cell) -> u8 {
    match c {
        Cell::Dead => 0,
        Cell::Alive => 1,
    }
}

/// The human-readable glyph of a cell: a filled square when alive, a hollow one when dead.
pub open spec fn glyph_of(c: Cell) -> char {
    match c {
        Cell::Alive => '◼',
        Cell::Dead => '◻',
    }
}

/// A dead cell encodes to 0 and a live one to 1, and the two glyphs differ.
pub proof fn lemma_encoding()
    ensures
        encoding(Cell::Dead) == 0,
        encoding(Cell::Alive) == 1,
        glyph_of(Cell::Dead) != glyph_of(Cell::Alive),
{
}

impl Cell {
    pub fn encode(&self) -> (r: u8)
        ensures
            r == encoding(*self),
    {
        match self {
            Cell::Dead => 0,
            Cell::Alive => 1,
        }
    }

    pub fn glyph(&self) -> (r: char)
        ensures
            r == glyph_of(*self),
    {
        match self {
            Cell::Alive => '◼',
            Cell::Dead => '◻',
        }
    }

    /// The glyph of the cell as a one-character string.
    pub fn to_string(&self) -> (r: String)
        ensures
            r@ == seq![glyph_of(*self)],
    {
        match self {
            Cell::Alive => {
                proof { reveal_strlit("◼"); }
                String::from_str("◼")
            },
            Cell::Dead => {
                proof { reveal_strlit("◻"); }
                String::from_str("◻")
            },
        }
    }
}

} // verus!
