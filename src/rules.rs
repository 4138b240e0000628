use vstd::prelude::*;

use crate::cells::Cell;

verus! {

/// The state a cell takes in the next generation, given its current state and
/// the number of its live neighbours.
pub open spec fn next_state(current: Cell, live_neighbours: int) -> Cell {
    match current {
        Cell::Alive => if live_neighbours == 2 || live_neighbours == 3 {
            Cell::Alive
        } else {
            Cell::Dead
        },
        Cell::Dead => if live_neighbours == 3 {
            Cell::Alive
        } else {
            Cell::Dead
        },
    }
}

/// The transition rule read as its table: a live cell with fewer than two live
/// neighbours dies, with two or three it lives on, with more than three it dies;
/// a dead cell with exactly three live neighbours comes alive, and otherwise
/// stays dead.
pub proof fn lemma_rule_table(current: Cell, n: int)
    requires
        0 <= n <= 8,
    ensures
        current == Cell::Alive && n < 2 ==> next_state(current, n) == Cell::Dead,
        current == Cell::Alive && (n == 2 || n == 3) ==> next_state(current, n) == Cell::Alive,
        current == Cell::Alive && n > 3 ==> next_state(current, n) == Cell::Dead,
        current == Cell::Dead && n == 3 ==> next_state(current, n) == Cell::Alive,
        current == Cell::Dead && n != 3 ==> next_state(current, n) == Cell::Dead,
{
}

/// Decides whether a cell is alive in the next generation.
pub fn hades(is_alive: Cell, living_neightbours: u8) -> (r: Cell)
    ensures
        r == next_state(is_alive, living_neightbours as int),
{
    match is_alive {
        Cell::Alive => if living_neightbours < 2 {
            Cell::Dead
        } else if living_neightbours == 2 || living_neightbours == 3 {
            Cell::Alive
        } else {
            Cell::Dead
        },
        Cell::Dead => if living_neightbours == 3 {
            Cell::Alive
        } else {
            Cell::Dead
        },
    }
}

} // verus!
