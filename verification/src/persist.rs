use vstd::prelude::*;
use crate::cell::{Cell, cell_code};
use crate::grid::{Grid, all_positive};

verus! {

/// The persisted form of a board: one integer per cell in row-major order,
/// 0 for an empty slot, the tile's value otherwise.
pub open spec fn encoded(cells: Seq<Cell>) -> Seq<u64> {
    cells.map_values(|c: Cell| cell_code(c))
}

/// The board a persisted integer sequence denotes: 0 becomes an empty slot,
/// any positive value a tile of that value.
pub open spec fn decoded(values: Seq<u64>) -> Seq<Cell> {
    values.map_values(
        |v: u64|
            if v == 0 {
                Cell::Empty
            } else {
                Cell::Occupied(v)
            },
    )
}

/// Loading failed: the persisted sequence does not have one integer per cell
/// of the grid it is loaded into.
#[derive(Clone, Copy, Debug, PartialEq, Eq, Structural)]
pub enum FormatError {
    WrongLength,
}

/// The persisted representation of the grid.
pub fn save(grid: &Grid) -> (r: Vec<u64>)
    ensures
        r@ == encoded(grid@.cells),
{
    let n = grid.total_cells();
    let mut out: Vec<u64> = Vec::new();
    for i in 0..n
        invariant
            n == grid@.cells.len(),
            out@.len() == i,
            forall|p: int| 0 <= p < i ==> out@[p] == cell_code(grid@.cells[p]),
    {
        let c = grid.cell_at(i);
        out.push(c.value_or_zero());
    }
    proof {
        assert(out@ =~= encoded(grid@.cells));
    }
    out
}

/// The grid a persisted sequence denotes, all-or-nothing: succeeds exactly
/// when the sequence has one integer per cell of a `width` by `height` grid,
/// and fails with a format error otherwise.
pub fn load(width: usize, height: usize, values: &Vec<u64>) -> (r: Result<Grid, FormatError>)
    requires
        width >= 1,
        height >= 1,
        width * height <= usize::MAX,
    ensures
        r is Ok <==> values@.len() == width * height,
        r matches Ok(g) ==> {
            &&& g@.width == width
            &&& g@.height == height
            &&& g@.cells == decoded(values@)
            &&& g@.wf()
        },
        r matches Err(e) ==> e == FormatError::WrongLength,
{
    let total = width * height;
    if values.len() != total {
        return Err(FormatError::WrongLength);
    }
    let mut cells: Vec<Cell> = Vec::new();
    for i in 0..total
        invariant
            total == values@.len(),
            cells@.len() == i,
            forall|p: int|
                0 <= p < i ==> (#[trigger] cells@[p]) == (if values@[p] == 0 {
                    Cell::Empty
                } else {
                    Cell::Occupied(values@[p])
                }),
    {
        let v = values[i];
        if v == 0 {
            cells.push(Cell::Empty);
        } else {
            cells.push(Cell::Occupied(v));
        }
    }
    proof {
        assert(cells@ =~= decoded(values@));
    }
    let g = Grid::from_parts(width, height, cells);
    Ok(g)
}

/// Saving a board and loading what was saved reproduces the board exactly,
/// for every board whose tiles have positive values.
pub proof fn lemma_save_load_roundtrip(cells: Seq<Cell>)
    requires
        all_positive(cells),
    ensures
        decoded(encoded(cells)) == cells,
{
    assert forall|i: int| 0 <= i < cells.len() implies decoded(encoded(cells))[i] == cells[i] by {
        assert(cells[i] matches Cell::Occupied(v) ==> v >= 1);
    }
    assert(decoded(encoded(cells)) =~= cells);
}

} // verus!
