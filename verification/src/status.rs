use vstd::prelude::*;
use crate::cell::Cell;
use crate::engine::{Direction, apply_direction, move_result};
use crate::grid::{Grid, GridModel, count_occupied};

verus! {

/// Some slot of the sequence holds a tile of exactly the value `v`.
pub open spec fn contains_value(s: Seq<Cell>, v: u64) -> bool {
    exists|i: int| 0 <= i < s.len() && s[i] == Cell::Occupied(v)
}

/// Whether any cell holds a tile of the winning value.
pub fn has_won(grid: &Grid, winning_value: u64) -> (r: bool)
    ensures
        r == contains_value(grid@.cells, winning_value),
{
    let n = grid.total_cells();
    for i in 0..n
        invariant
            n == grid@.cells.len(),
            forall|p: int| 0 <= p < i ==> (#[trigger] grid@.cells[p]) != Cell::Occupied(
                winning_value,
            ),
    {
        match grid.cell_at(i) {
            Cell::Occupied(v) => {
                if v == winning_value {
                    return true;
                }
            },
            Cell::Empty => {},
        }
    }
    false
}

/// Whether some move is still possible: an empty slot exists, or at least one
/// of the four directions would apply at least one relocation or merge.
pub open spec fn spec_can_move(m: GridModel) -> bool {
    ||| count_occupied(m.cells) < m.total()
    ||| move_result(m.cells, m.width as int, m.height as int, Direction::Down).1 > 0
    ||| move_result(m.cells, m.width as int, m.height as int, Direction::Up).1 > 0
    ||| move_result(m.cells, m.width as int, m.height as int, Direction::Left).1 > 0
    ||| move_result(m.cells, m.width as int, m.height as int, Direction::Right).1 > 0
}

/// True unless the grid is completely full and none of the four directions
/// would change anything; in that case the game is stuck.
pub fn can_move(grid: &Grid) -> (r: bool)
    requires
        grid@.wf(),
    ensures
        r == spec_can_move(grid@),
{
    if grid.filled_count() < grid.total_cells() {
        return true;
    }
    let (_, applied_down) = apply_direction(grid, Direction::Down);
    if applied_down != 0 {
        return true;
    }
    let (_, applied_up) = apply_direction(grid, Direction::Up);
    if applied_up != 0 {
        return true;
    }
    let (_, applied_left) = apply_direction(grid, Direction::Left);
    if applied_left != 0 {
        return true;
    }
    let (_, applied_right) = apply_direction(grid, Direction::Right);
    if applied_right != 0 {
        return true;
    }
    false
}

} // verus!
