use rand::SeedableRng;
use rand::rngs::StdRng;
use tile_merge::{
    can_move, has_won, load, maybe_spawn, Cell, Config, ConfigError, Direction, Game,
    HistoryStack, MoveOutcome,
};

fn small_config() -> Config {
    Config {
        width: 2,
        height: 2,
        starting_value: 2,
        winning_value: 2048,
        starting_fill_count: 2,
        max_new_cells: 2,
        spawn_denominator: 4,
    }
}

fn game_with_cells(config: Config, codes: Vec<u64>) -> Game {
    let grid = load(config.width, config.height, &codes).expect("cells must load");
    Game { config, grid, has_won: false, history: HistoryStack::new() }
}

#[test]
fn new_game_places_starting_tiles() {
    let mut rng = StdRng::seed_from_u64(7);
    let game = Game::new(small_config(), &mut rng).expect("config fits");
    assert_eq!(game.grid.filled_count(), 2);
    assert!(!game.has_won);
    assert_eq!(game.history.len(), 0);
    for i in 0..game.grid.total_cells() {
        match game.grid.cell_at(i) {
            Cell::Occupied(v) => assert_eq!(v, 2),
            Cell::Empty => {}
        }
    }
}

#[test]
fn new_game_rejects_overfull_start() {
    let mut rng = StdRng::seed_from_u64(7);
    let mut config = small_config();
    config.starting_fill_count = 4;
    let r = Game::new(config, &mut rng);
    assert_eq!(r.err(), Some(ConfigError::TooManyStartingTiles));
}

#[test]
fn full_grid_without_equal_neighbors_is_stuck() {
    // A fully occupied grid with no two adjacent equal values in any
    // direction admits no move at all.
    let g = load(2, 2, &vec![2, 4, 8, 16]).unwrap();
    assert!(!can_move(&g));
}

#[test]
fn full_grid_with_equal_neighbors_can_move() {
    let g = load(2, 2, &vec![2, 2, 4, 8]).unwrap();
    assert!(can_move(&g));
}

#[test]
fn grid_with_an_empty_slot_can_move() {
    let g = load(2, 2, &vec![2, 4, 8, 0]).unwrap();
    assert!(can_move(&g));
}

#[test]
fn stuck_grid_reports_no_moves_left() {
    let mut rng = StdRng::seed_from_u64(1);
    let mut game = game_with_cells(small_config(), vec![2, 4, 8, 16]);
    let outcome = game.process_action(Direction::Left, &mut rng);
    assert_eq!(outcome, MoveOutcome::Stuck);
}

#[test]
fn reaching_winning_value_reports_won_once() {
    let mut rng = StdRng::seed_from_u64(3);
    let mut game = game_with_cells(small_config(), vec![1024, 1024, 0, 0]);
    let outcome = game.process_action(Direction::Right, &mut rng);
    assert_eq!(outcome, MoveOutcome::Won);
    assert!(game.has_won);
    assert!(has_won(&game.grid, 2048));
    // The won status is a latch: continuing play does not announce it again.
    let outcome2 = game.process_action(Direction::Left, &mut rng);
    assert_ne!(outcome2, MoveOutcome::Won);
    assert!(game.has_won);
}

#[test]
fn undo_restores_board_before_move() {
    let mut rng = StdRng::seed_from_u64(11);
    let before = vec![2, 0, 4, 0];
    let mut game = game_with_cells(
        Config { width: 4, height: 1, ..small_config() },
        before.clone(),
    );
    let snapshot = game.grid.cells_clone();
    game.process_action(Direction::Left, &mut rng);
    assert_eq!(game.history.len(), 1);
    game.undo_move();
    assert_eq!(game.grid.cells(), &snapshot);
    assert_eq!(game.history.len(), 0);
}

#[test]
fn undo_after_several_moves_restores_each_in_turn() {
    let mut rng = StdRng::seed_from_u64(13);
    let mut game = game_with_cells(
        Config { width: 4, height: 1, ..small_config() },
        vec![2, 0, 2, 0],
    );
    let first = game.grid.cells_clone();
    game.process_action(Direction::Left, &mut rng);
    let second = game.grid.cells_clone();
    game.process_action(Direction::Left, &mut rng);
    game.undo_move();
    assert_eq!(game.grid.cells(), &second);
    game.undo_move();
    assert_eq!(game.grid.cells(), &first);
}

#[test]
fn undo_on_empty_history_is_a_no_op() {
    let before = vec![2, 0, 4, 0];
    let mut game = game_with_cells(
        Config { width: 4, height: 1, ..small_config() },
        before.clone(),
    );
    game.undo_move();
    assert_eq!(game.grid.filled_count(), 2);
    let codes: Vec<u64> = tile_merge::save(&game.grid);
    assert_eq!(codes, before);
}

#[test]
fn no_op_move_is_still_snapshotted() {
    let mut rng = StdRng::seed_from_u64(17);
    let mut game = game_with_cells(
        Config { width: 4, height: 1, ..small_config() },
        vec![2, 0, 0, 0],
    );
    game.process_action(Direction::Left, &mut rng);
    assert_eq!(game.history.len(), 1);
}

#[test]
fn spawn_fills_only_empty_slots_with_starting_value() {
    // A denominator of 1 makes the spawn certain: two tiles of the starting
    // value are added to the three free slots.
    let mut rng = StdRng::seed_from_u64(23);
    let mut g = load(2, 2, &vec![8, 0, 0, 0]).unwrap();
    maybe_spawn(&mut g, 1, 2, 2, &mut rng);
    assert_eq!(g.filled_count(), 3);
    assert_eq!(g.cell_at(0), Cell::Occupied(8));
    let mut spawned = 0;
    for i in 1..4 {
        match g.cell_at(i) {
            Cell::Occupied(v) => {
                assert_eq!(v, 2);
                spawned += 1;
            }
            Cell::Empty => {}
        }
    }
    assert_eq!(spawned, 2);
}

#[test]
fn spawn_on_full_grid_changes_nothing() {
    let mut rng = StdRng::seed_from_u64(29);
    let mut g = load(2, 2, &vec![2, 4, 8, 16]).unwrap();
    maybe_spawn(&mut g, 1, 2, 2, &mut rng);
    assert_eq!(g.cells(), load(2, 2, &vec![2, 4, 8, 16]).unwrap().cells());
}

#[test]
fn spawn_caps_at_free_slots() {
    let mut rng = StdRng::seed_from_u64(31);
    let mut g = load(2, 2, &vec![2, 4, 8, 0]).unwrap();
    maybe_spawn(&mut g, 1, 2, 2, &mut rng);
    assert_eq!(g.filled_count(), 4);
    assert_eq!(g.cell_at(3), Cell::Occupied(2));
}

#[test]
fn history_stack_pushes_and_pops_in_order() {
    let mut h = HistoryStack::new();
    assert_eq!(h.len(), 0);
    assert!(h.pop().is_none());
    h.push(vec![Cell::Occupied(2), Cell::Empty]);
    h.push(vec![Cell::Occupied(4), Cell::Empty]);
    assert_eq!(h.len(), 2);
    assert_eq!(h.pop(), Some(vec![Cell::Occupied(4), Cell::Empty]));
    assert_eq!(h.pop(), Some(vec![Cell::Occupied(2), Cell::Empty]));
    assert!(h.pop().is_none());
}
