use vstd::prelude::*;
use crate::cell::Cell;
use crate::grid::{Grid, count_empty, count_occupied, lemma_counts_sum};
use crate::rng::rand_below;

verus! {

/// What spawning may do to the cells, whatever the random source returns:
/// only empty slots change, each changed slot receives a tile of the starting
/// value, and at most `k` slots change.
pub open spec fn spawn_only_fills(before: Seq<Cell>, after: Seq<Cell>, sv: u64, k: nat) -> bool {
    &&& after.len() == before.len()
    &&& forall|i: int|
        0 <= i < before.len() && (#[trigger] after[i]) != before[i] ==> before[i] is Empty
            && after[i] == Cell::Occupied(sv)
    &&& count_occupied(before) <= count_occupied(after)
    &&& count_occupied(after) <= count_occupied(before) + k
}

/// With probability one in `spawn_denominator`, add `max_new_cells` tiles of
/// the starting value (fewer if fewer slots are free; none if none are), each
/// into an empty slot chosen uniformly at random. Called only after a move
/// that changed something.
pub fn maybe_spawn(
    grid: &mut Grid,
    spawn_denominator: usize,
    max_new_cells: usize,
    starting_value: u64,
    rng: &mut rand::rngs::StdRng,
)
    requires
        old(grid)@.wf(),
        spawn_denominator >= 1,
        starting_value >= 1,
    ensures
        final(grid)@.wf(),
        final(grid)@.width == old(grid)@.width,
        final(grid)@.height == old(grid)@.height,
        spawn_only_fills(
            old(grid)@.cells,
            final(grid)@.cells,
            starting_value,
            max_new_cells as nat,
        ),
{
    let ghost before = grid@.cells;
    let chance = rand_below(rng, spawn_denominator);
    if chance == 0 {
        let total = grid.total_cells();
        let filled = grid.filled_count();
        proof {
            lemma_counts_sum(grid@.cells);
        }
        let num_free = total - filled;
        if num_free != 0 {
            let cells_to_add = if num_free < max_new_cells {
                num_free
            } else {
                max_new_cells
            };
            for t in 0..cells_to_add
                invariant
                    grid@.wf(),
                    grid@.width == old(grid)@.width,
                    grid@.height == old(grid)@.height,
                    grid@.cells.len() == before.len(),
                    total == before.len(),
                    filled == count_occupied(before),
                    cells_to_add <= num_free,
                    num_free == total - filled,
                    starting_value >= 1,
                    count_occupied(grid@.cells) == filled + t,
                    forall|i: int|
                        0 <= i < before.len() && (#[trigger] grid@.cells[i]) != before[i]
                            ==> before[i] is Empty && grid@.cells[i] == Cell::Occupied(
                            starting_value,
                        ),
            {
                proof {
                    lemma_counts_sum(grid@.cells);
                }
                grid.spawn_one(starting_value, rng);
            }
        }
    }
}

} // verus!
