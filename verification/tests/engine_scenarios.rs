use tile_merge::{apply_direction, load, move_cells, Cell, Direction, Grid};

fn grid_from(width: usize, height: usize, codes: Vec<u64>) -> Grid {
    load(width, height, &codes).expect("grid literal must load")
}

#[test]
fn two_by_two_right_merges_equal_pair() {
    // 2x2 grid [Occupied(2), Occupied(2), Empty, Empty], move Right:
    // the pair merges into one tile of 4 in the right column.
    let g = grid_from(2, 2, vec![2, 2, 0, 0]);
    let (moved, applied) = apply_direction(&g, Direction::Right);
    assert_eq!(
        moved.cells(),
        &vec![Cell::Empty, Cell::Occupied(4), Cell::Empty, Cell::Empty]
    );
    assert_eq!(applied, 1);
}

#[test]
fn one_by_four_left_advances_one_step() {
    // 1x4 grid [Occupied(2), Empty, Occupied(4), Empty], move Left: the 4
    // advances one step into the empty slot ahead of it; the 2 already
    // touches the boundary and contributes no relocation, so exactly one
    // modification is applied. No merge: the values differ.
    let g = grid_from(4, 1, vec![2, 0, 4, 0]);
    let (moved, applied) = apply_direction(&g, Direction::Left);
    assert_eq!(
        moved.cells(),
        &vec![Cell::Occupied(2), Cell::Occupied(4), Cell::Empty, Cell::Empty]
    );
    assert_eq!(applied, 1);
}

#[test]
fn one_step_only_no_cascading_merge() {
    // [Empty, Occupied(2), Occupied(2), Empty], move Left: the front tile
    // vacates its slot first, so the back tile moves into the vacated slot
    // instead of merging; one key press advances each tile one step.
    let g = grid_from(4, 1, vec![0, 2, 2, 0]);
    let (moved, applied) = apply_direction(&g, Direction::Left);
    assert_eq!(
        moved.cells(),
        &vec![Cell::Occupied(2), Cell::Occupied(2), Cell::Empty, Cell::Empty]
    );
    assert_eq!(applied, 2);
}

#[test]
fn unequal_tile_does_not_move_into_occupied_neighbor() {
    // [Occupied(4), Occupied(2), Occupied(2), Empty], move Left: the first 2
    // is blocked by the unequal 4; the second 2 then merges into it.
    let g = grid_from(4, 1, vec![4, 2, 2, 0]);
    let (moved, applied) = apply_direction(&g, Direction::Left);
    assert_eq!(
        moved.cells(),
        &vec![Cell::Occupied(4), Cell::Occupied(4), Cell::Empty, Cell::Empty]
    );
    assert_eq!(applied, 1);
}

#[test]
fn up_merges_vertical_pair() {
    let g = grid_from(2, 2, vec![2, 0, 2, 0]);
    let (moved, applied) = apply_direction(&g, Direction::Up);
    assert_eq!(
        moved.cells(),
        &vec![Cell::Occupied(4), Cell::Empty, Cell::Empty, Cell::Empty]
    );
    assert_eq!(applied, 1);
}

#[test]
fn down_merges_vertical_pair() {
    let g = grid_from(2, 2, vec![2, 0, 2, 0]);
    let (moved, applied) = apply_direction(&g, Direction::Down);
    assert_eq!(
        moved.cells(),
        &vec![Cell::Empty, Cell::Empty, Cell::Occupied(4), Cell::Empty]
    );
    assert_eq!(applied, 1);
}

#[test]
fn boundary_tile_never_relocates() {
    // Tiles already against the left wall stay put under a Left move.
    let g = grid_from(4, 1, vec![2, 0, 0, 2]);
    let (moved, applied) = apply_direction(&g, Direction::Left);
    assert_eq!(
        moved.cells(),
        &vec![Cell::Occupied(2), Cell::Empty, Cell::Occupied(2), Cell::Empty]
    );
    assert_eq!(applied, 1);
}

#[test]
fn merge_count_reduces_filled_exactly() {
    // Four tiles, two merges: the filled count drops from 4 to 2.
    let g = grid_from(2, 2, vec![2, 2, 2, 2]);
    assert_eq!(g.filled_count(), 4);
    let (moved, applied) = apply_direction(&g, Direction::Left);
    assert_eq!(
        moved.cells(),
        &vec![Cell::Occupied(4), Cell::Empty, Cell::Occupied(4), Cell::Empty]
    );
    assert_eq!(applied, 2);
    assert_eq!(moved.filled_count(), 2);
}

#[test]
fn move_without_effect_applies_nothing() {
    let g = grid_from(4, 1, vec![2, 0, 0, 0]);
    let (moved, applied) = apply_direction(&g, Direction::Left);
    assert_eq!(moved.cells(), g.cells());
    assert_eq!(applied, 0);
}

#[test]
fn candidates_come_in_processing_order() {
    // Under Right, candidates are listed rightmost column first, so the
    // rightmost movable tile travels before its follower.
    let g = grid_from(4, 1, vec![2, 4, 0, 0]);
    let mods = move_cells(&g, Direction::Right);
    assert_eq!(mods, vec![(1, 2, Cell::Occupied(4)), (0, 1, Cell::Occupied(2))]);
    let (moved, applied) = apply_direction(&g, Direction::Right);
    assert_eq!(
        moved.cells(),
        &vec![Cell::Empty, Cell::Occupied(2), Cell::Occupied(4), Cell::Empty]
    );
    assert_eq!(applied, 2);
}

#[test]
fn grid_index_helpers() {
    let g = grid_from(3, 2, vec![0, 0, 0, 0, 0, 2]);
    assert_eq!(g.width(), 3);
    assert_eq!(g.height(), 2);
    assert_eq!(g.total_cells(), 6);
    assert_eq!(g.row_of(4), Some(1));
    assert_eq!(g.col_of(4), Some(1));
    assert_eq!(g.row_of(6), None);
    assert_eq!(g.col_of(6), None);
    assert_eq!(g.cell_at(5), Cell::Occupied(2));
}

#[test]
fn cell_order_empty_below_all_tiles() {
    assert!(Cell::Empty < Cell::Occupied(1));
    assert!(Cell::Occupied(2) < Cell::Occupied(4));
    assert!(Cell::Occupied(4) > Cell::Empty);
    assert!(Cell::Empty <= Cell::Empty);
    assert_eq!(Cell::Occupied(2), Cell::Occupied(2));
    assert!(Cell::Occupied(2) != Cell::Empty);
}
