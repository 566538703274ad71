use vstd::prelude::*;
use core::cmp::Ordering;

verus! {

/// One slot of the grid: either empty or holding a tile with a positive value.
#[derive(Clone, Copy, Debug, PartialEq, Eq, Structural)]
pub enum Cell {
    Occupied(u64),
    Empty,
}

/// The number a slot is persisted and displayed as: the tile value, or 0 for
/// an empty slot.
pub open spec fn cell_code(c: Cell) -> u64 {
    match c {
        Cell::Occupied(v) => v,
        Cell::Empty => 0,
    }
}

/// The order of slots: an empty slot is below every tile, and tiles are
/// ordered by their values.
pub open spec fn cell_order(a: Cell, b: Cell) -> Ordering {
    match a {
        Cell::Occupied(n) => match b {
            Cell::Occupied(m) => if n < m {
                Ordering::Less
            } else if n == m {
                Ordering::Equal
            } else {
                Ordering::Greater
            },
            Cell::Empty => Ordering::Greater,
        },
        Cell::Empty => match b {
            Cell::Occupied(_) => Ordering::Less,
            Cell::Empty => Ordering::Equal,
        },
    }
}

impl Cell {
    /// The persisted and displayed number for this slot: its value, or 0 if empty.
    pub fn value_or_zero(&self) -> (r: u64)
        ensures
            r == cell_code(*self),
    {
        match self {
            Cell::Occupied(v) => *v,
            Cell::Empty => 0,
        }
    }
}

impl PartialOrd for Cell {
    fn partial_cmp(&self, other: &Cell) -> (r: Option<Ordering>) {
        match self {
            Cell::Occupied(n) => match other {
                Cell::Occupied(m) => if n < m {
                    Some(Ordering::Less)
                } else if n == m {
                    Some(Ordering::Equal)
                } else {
                    Some(Ordering::Greater)
                },
                Cell::Empty => Some(Ordering::Greater),
            },
            Cell::Empty => match other {
                Cell::Occupied(_) => Some(Ordering::Less),
                Cell::Empty => Some(Ordering::Equal),
            },
        }
    }
}

impl vstd::std_specs::cmp::PartialOrdSpecImpl for Cell {
    open spec fn obeys_partial_cmp_spec() -> bool {
        true
    }

    open spec fn partial_cmp_spec(&self, other: &Cell) -> Option<Ordering> {
        Some(cell_order(*self, *other))
    }
}

} // verus!
