use vstd::prelude::*;

mod cell;
mod engine;
mod game;
mod grid;
mod history;
mod padding;
mod persist;
mod rng;
mod spawn;
mod status;

pub use cell::Cell;
pub use cell::cell_code;
pub use cell::cell_order;
pub use engine::Direction;
pub use engine::Relocation;
pub use engine::apply_direction;
pub use engine::apply_modifications;
pub use engine::apply_one;
pub use engine::apply_seq;
pub use engine::candidates;
pub use engine::has_step;
pub use engine::lemma_boundary_tile_stays;
pub use engine::lemma_destinations_distinct;
pub use engine::lemma_merge_equal_neighbor;
pub use engine::lemma_move_tile_count;
pub use engine::lemma_unequal_neighbor_stays;
pub use engine::lemma_zero_applied_unchanged;
pub use engine::move_cells;
pub use engine::move_result;
pub use engine::step_dest;
pub use game::Config;
pub use game::Game;
pub use game::MoveOutcome;
pub use grid::ConfigError;
pub use grid::Grid;
pub use grid::GridModel;
pub use grid::all_positive;
pub use grid::count_empty;
pub use grid::count_occupied;
pub use grid::only_value;
pub use history::HistoryStack;
pub use history::lemma_undo_restores;
pub use padding::digits10;
pub use padding::max_code;
pub use padding::required_x_padding;
pub use padding::spec_padding;
pub use persist::FormatError;
pub use persist::decoded;
pub use persist::encoded;
pub use persist::lemma_save_load_roundtrip;
pub use persist::load;
pub use persist::save;
pub use spawn::maybe_spawn;
pub use spawn::spawn_only_fills;
pub use status::can_move;
pub use status::contains_value;
pub use status::has_won;
pub use status::spec_can_move;

verus! {

} // verus!
