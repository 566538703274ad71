use vstd::prelude::*;
use crate::cell::Cell;
use crate::engine::{Direction, apply_direction, move_result};
use crate::grid::{ConfigError, Grid, all_positive, count_occupied, only_value};
use crate::history::HistoryStack;
use crate::spawn::{maybe_spawn, spawn_only_fills};
use crate::status::{can_move, contains_value, has_won, spec_can_move};

verus! {

/// The adjustable rules of a session.
#[derive(Clone, Copy, Debug, PartialEq, Eq, Structural)]
pub struct Config {
    pub width: usize,
    pub height: usize,
    pub starting_value: u64,
    pub winning_value: u64,
    pub starting_fill_count: usize,
    pub max_new_cells: usize,
    pub spawn_denominator: usize,
}

impl Config {
    /// What every session needs of its rules: positive dimensions whose
    /// product fits the machine, a positive tile value to place, and a
    /// nonempty range to draw the spawn chance from.
    pub open spec fn valid(self) -> bool {
        &&& self.width >= 1
        &&& self.height >= 1
        &&& self.width * self.height <= usize::MAX
        &&& self.starting_value >= 1
        &&& self.spawn_denominator >= 1
    }
}

/// What processing one directional input reports back to the caller:
/// nothing to announce, the winning value was just reached, or no move in
/// any direction can change the full grid any more.
#[derive(Clone, Copy, Debug, PartialEq, Eq, Structural)]
pub enum MoveOutcome {
    Continue,
    Won,
    Stuck,
}

/// One play session: the board, the one-way won latch, and the undo history.
pub struct Game {
    pub config: Config,
    pub grid: Grid,
    pub has_won: bool,
    pub history: HistoryStack,
}

impl Game {
    pub open spec fn wf(self) -> bool {
        &&& self.config.valid()
        &&& self.grid@.wf()
        &&& self.grid@.width == self.config.width
        &&& self.grid@.height == self.config.height
        &&& forall|i: int|
            0 <= i < self.history@.len() ==> (#[trigger] self.history@[i]).len()
                == self.config.width * self.config.height && all_positive(self.history@[i])
    }

    /// A fresh session: an empty board with the configured number of starting
    /// tiles placed at random, nothing won yet, no history. Rejected when the
    /// starting tiles would not fit.
    pub fn new(config: Config, rng: &mut rand::rngs::StdRng) -> (r: Result<Game, ConfigError>)
        requires
            config.valid(),
        ensures
            r is Ok <==> config.starting_fill_count < config.width * config.height,
            r matches Ok(g) ==> {
                &&& g.wf()
                &&& g.config == config
                &&& g.has_won == false
                &&& g.history@ == Seq::<Seq<Cell>>::empty()
                &&& count_occupied(g.grid@.cells) == config.starting_fill_count
                &&& only_value(g.grid@.cells, config.starting_value)
            },
            r matches Err(e) ==> e == ConfigError::TooManyStartingTiles,
    {
        match Grid::new(
            config.width,
            config.height,
            config.starting_fill_count,
            config.starting_value,
            rng,
        ) {
            Ok(grid) => Ok(
                Game { config, grid, has_won: false, history: HistoryStack::new() },
            ),
            Err(e) => Err(e),
        }
    }

    /// Snapshot the current board on top of the history, so the move about to
    /// be attempted can be undone.
    pub fn save_previous_board(&mut self)
        requires
            old(self).wf(),
        ensures
            final(self).wf(),
            final(self).config == old(self).config,
            final(self).has_won == old(self).has_won,
            final(self).grid@ == old(self).grid@,
            final(self).history@ == old(self).history@.push(old(self).grid@.cells),
    {
        let snapshot = self.grid.cells_clone();
        self.history.push(snapshot);
    }

    /// Process one directional input: snapshot for undo, apply the move, let
    /// a tile spawn if the move changed anything, latch a first win, and
    /// report whether play can continue.
    pub fn process_action(&mut self, direction: Direction, rng: &mut rand::rngs::StdRng) -> (r:
        MoveOutcome)
        requires
            old(self).wf(),
        ensures
            final(self).wf(),
            final(self).config == old(self).config,
            final(self).grid@.width == old(self).grid@.width,
            final(self).grid@.height == old(self).grid@.height,
            final(self).history@ == old(self).history@.push(old(self).grid@.cells),
            ({
                let moved = move_result(
                    old(self).grid@.cells,
                    old(self).grid@.width as int,
                    old(self).grid@.height as int,
                    direction,
                );
                if moved.1 == 0 {
                    final(self).grid@.cells == moved.0
                } else {
                    spawn_only_fills(
                        moved.0,
                        final(self).grid@.cells,
                        old(self).config.starting_value,
                        old(self).config.max_new_cells as nat,
                    )
                }
            }),
            final(self).has_won == (old(self).has_won || contains_value(
                final(self).grid@.cells,
                old(self).config.winning_value,
            )),
            r == (if !old(self).has_won && contains_value(
                final(self).grid@.cells,
                old(self).config.winning_value,
            ) {
                MoveOutcome::Won
            } else if !spec_can_move(final(self).grid@) {
                MoveOutcome::Stuck
            } else {
                MoveOutcome::Continue
            }),
    {
        self.save_previous_board();
        let (new_grid, applied) = apply_direction(&self.grid, direction);
        self.grid = new_grid;
        if applied != 0 {
            maybe_spawn(
                &mut self.grid,
                self.config.spawn_denominator,
                self.config.max_new_cells,
                self.config.starting_value,
                rng,
            );
        }
        if !self.has_won && has_won(&self.grid, self.config.winning_value) {
            self.has_won = true;
            return MoveOutcome::Won;
        }
        if !can_move(&self.grid) {
            return MoveOutcome::Stuck;
        }
        MoveOutcome::Continue
    }

    /// Undo the most recent move attempt: restore the board exactly as it was
    /// snapshotted before it, or do nothing when there is no history.
    pub fn undo_move(&mut self)
        requires
            old(self).wf(),
        ensures
            final(self).wf(),
            final(self).config == old(self).config,
            final(self).has_won == old(self).has_won,
            old(self).history@.len() == 0 ==> final(self).grid@ == old(self).grid@
                && final(self).history@ == old(self).history@,
            old(self).history@.len() > 0 ==> {
                &&& final(self).grid@.cells == old(self).history@.last()
                &&& final(self).grid@.width == old(self).grid@.width
                &&& final(self).grid@.height == old(self).grid@.height
                &&& final(self).history@ == old(self).history@.drop_last()
            },
    {
        let popped = self.history.pop();
        match popped {
            Some(previous) => {
                let w = self.grid.width();
                let h = self.grid.height();
                self.grid = Grid::from_parts(w, h, previous);
            },
            None => {},
        }
    }
}

} // verus!
