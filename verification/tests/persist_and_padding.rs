use rand::SeedableRng;
use rand::rngs::StdRng;
use tile_merge::{load, required_x_padding, save, Cell, FormatError, Game, Config};

#[test]
fn save_writes_one_code_per_cell() {
    let g = load(4, 1, &vec![2, 0, 4, 0]).unwrap();
    assert_eq!(save(&g), vec![2, 0, 4, 0]);
}

#[test]
fn save_then_load_reproduces_grid() {
    let g = load(3, 2, &vec![2, 0, 4, 1024, 0, 8]).unwrap();
    let saved = save(&g);
    let reloaded = load(3, 2, &saved).unwrap();
    assert_eq!(reloaded.cells(), g.cells());
    assert_eq!(reloaded.width(), g.width());
    assert_eq!(reloaded.height(), g.height());
}

#[test]
fn save_then_load_roundtrips_a_fresh_random_game() {
    let mut rng = StdRng::seed_from_u64(41);
    let config = Config {
        width: 6,
        height: 6,
        starting_value: 2,
        winning_value: 2048,
        starting_fill_count: 4,
        max_new_cells: 2,
        spawn_denominator: 4,
    };
    let game = Game::new(config, &mut rng).unwrap();
    let saved = save(&game.grid);
    let reloaded = load(6, 6, &saved).unwrap();
    assert_eq!(reloaded.cells(), game.grid.cells());
}

#[test]
fn load_rejects_wrong_length() {
    assert_eq!(load(2, 2, &vec![2, 0, 4]).err(), Some(FormatError::WrongLength));
    assert_eq!(load(2, 2, &vec![2, 0, 4, 0, 8]).err(), Some(FormatError::WrongLength));
}

#[test]
fn load_maps_zero_to_empty_and_positive_to_tiles() {
    let g = load(2, 2, &vec![0, 2, 0, 16]).unwrap();
    assert_eq!(
        g.cells(),
        &vec![Cell::Empty, Cell::Occupied(2), Cell::Empty, Cell::Occupied(16)]
    );
}

#[test]
fn cell_codes_are_value_or_zero() {
    assert_eq!(Cell::Occupied(32).value_or_zero(), 32);
    assert_eq!(Cell::Empty.value_or_zero(), 0);
}

#[test]
fn padding_is_at_least_three() {
    // An empty board displays only zeros: one digit wide, held to the
    // minimum of two, plus one space.
    let board: Vec<Cell> = vec![Cell::Empty, Cell::Empty];
    assert_eq!(required_x_padding(&board), 3);
    let small: Vec<Cell> = vec![Cell::Occupied(8), Cell::Empty];
    assert_eq!(required_x_padding(&small), 3);
}

#[test]
fn padding_grows_with_the_widest_value() {
    let board = vec![Cell::Occupied(2), Cell::Occupied(2048), Cell::Empty];
    assert_eq!(required_x_padding(&board), 5);
    let wide = vec![Cell::Occupied(2), Cell::Occupied(100000), Cell::Empty];
    assert_eq!(required_x_padding(&wide), 7);
    let three = vec![Cell::Occupied(128)];
    assert_eq!(required_x_padding(&three), 4);
}
