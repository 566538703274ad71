use vstd::prelude::*;
use crate::cell::Cell;
use crate::rng::rand_below;

verus! {

/// How many slots of the sequence hold a tile.
pub open spec fn count_occupied(s: Seq<Cell>) -> nat
    decreases s.len(),
{
    if s.len() == 0 {
        0
    } else {
        count_occupied(s.drop_last()) + if s.last() is Occupied {
            1nat
        } else {
            0nat
        }
    }
}

/// How many slots of the sequence are empty.
pub open spec fn count_empty(s: Seq<Cell>) -> nat
    decreases s.len(),
{
    if s.len() == 0 {
        0
    } else {
        count_empty(s.drop_last()) + if s.last() is Empty {
            1nat
        } else {
            0nat
        }
    }
}

/// Every tile in the sequence has a positive value.
pub open spec fn all_positive(s: Seq<Cell>) -> bool {
    forall|i: int|
        0 <= i < s.len() ==> ((#[trigger] s[i]) matches Cell::Occupied(v) ==> v >= 1)
}

/// Every tile in the sequence has exactly the value `v`.
pub open spec fn only_value(s: Seq<Cell>, v: u64) -> bool {
    forall|i: int|
        0 <= i < s.len() ==> ((#[trigger] s[i]) is Occupied ==> s[i] == Cell::Occupied(v))
}

pub proof fn lemma_counts_sum(s: Seq<Cell>)
    ensures
        count_occupied(s) + count_empty(s) == s.len(),
    decreases s.len(),
{
    if s.len() > 0 {
        lemma_counts_sum(s.drop_last());
    }
}

/// Extending a prefix by one slot adds that slot's contribution to the count.
pub proof fn lemma_count_take_succ(s: Seq<Cell>, i: int)
    requires
        0 <= i < s.len(),
    ensures
        count_occupied(s.take(i + 1)) == count_occupied(s.take(i)) + if s[i] is Occupied {
            1nat
        } else {
            0nat
        },
        count_empty(s.take(i + 1)) == count_empty(s.take(i)) + if s[i] is Empty {
            1nat
        } else {
            0nat
        },
{
    assert(s.take(i + 1).drop_last() =~= s.take(i));
    assert(s.take(i + 1).last() == s[i]);
}

pub proof fn lemma_count_take_all(s: Seq<Cell>)
    ensures
        count_occupied(s.take(s.len() as int)) == count_occupied(s),
        count_empty(s.take(s.len() as int)) == count_empty(s),
{
    assert(s.take(s.len() as int) =~= s);
}

/// Replacing one slot changes the occupied count by the difference of the two
/// slots' contributions.
pub proof fn lemma_count_update(s: Seq<Cell>, i: int, c: Cell)
    requires
        0 <= i < s.len(),
    ensures
        count_occupied(s.update(i, c)) + (if s[i] is Occupied {
            1nat
        } else {
            0nat
        }) == count_occupied(s) + (if c is Occupied {
            1nat
        } else {
            0nat
        }),
    decreases s.len(),
{
    let t = s.update(i, c);
    if i == s.len() - 1 {
        assert(t.drop_last() =~= s.drop_last());
        assert(t.last() == c);
    } else {
        assert(t.drop_last() =~= s.drop_last().update(i, c));
        assert(t.last() == s.last());
        lemma_count_update(s.drop_last(), i, c);
    }
}

/// The grid as the contracts speak of it: its dimensions and its row-major
/// sequence of slots.
pub struct GridModel {
    pub width: nat,
    pub height: nat,
    pub cells: Seq<Cell>,
}

impl GridModel {
    pub open spec fn total(self) -> nat {
        self.width * self.height
    }

    pub open spec fn wf(self) -> bool {
        &&& self.width >= 1
        &&& self.height >= 1
        &&& self.cells.len() == self.width * self.height
        &&& all_positive(self.cells)
    }
}

/// The configuration was rejected: more starting tiles were asked for than the
/// grid has cells, so construction could never finish placing them.
#[derive(Clone, Copy, Debug, PartialEq, Eq, Structural)]
pub enum ConfigError {
    TooManyStartingTiles,
}

/// A rectangular board of tiles, stored row-major.
pub struct Grid {
    width: usize,
    height: usize,
    cells: Vec<Cell>,
}

impl View for Grid {
    type V = GridModel;

    closed spec fn view(&self) -> GridModel {
        GridModel { width: self.width as nat, height: self.height as nat, cells: self.cells@ }
    }
}

impl Grid {
    pub fn width(&self) -> (r: usize)
        ensures
            r == self@.width,
    {
        self.width
    }

    pub fn height(&self) -> (r: usize)
        ensures
            r == self@.height,
    {
        self.height
    }

    pub fn total_cells(&self) -> (r: usize)
        ensures
            r == self@.cells.len(),
    {
        self.cells.len()
    }

    pub fn cell_at(&self, index: usize) -> (r: Cell)
        requires
            index < self@.cells.len(),
        ensures
            r == self@.cells[index as int],
    {
        self.cells[index]
    }

    pub fn cells(&self) -> (r: &Vec<Cell>)
        ensures
            r@ == self@.cells,
    {
        &self.cells
    }

    /// Clone of the slot sequence, for snapshots.
    pub fn cells_clone(&self) -> (r: Vec<Cell>)
        ensures
            r@ == self@.cells,
    {
        let mut out: Vec<Cell> = Vec::new();
        let n = self.cells.len();
        for i in 0..n
            invariant
                out@.len() == i,
                n == self.cells.len(),
                forall|p: int| 0 <= p < i ==> out@[p] == self.cells@[p],
        {
            out.push(self.cells[i]);
        }
        assert(out@ =~= self@.cells);
        out
    }

    /// The row a linear index lies in, or nothing when the index is outside
    /// the grid.
    pub fn row_of(&self, index: usize) -> (r: Option<usize>)
        requires
            self@.wf(),
        ensures
            index < self@.total() ==> r == Some((index as int / self@.width as int) as usize),
            index >= self@.total() ==> r is None,
    {
        if index < self.cells.len() {
            Some(index / self.width)
        } else {
            None
        }
    }

    /// The column a linear index lies in, or nothing when the index is outside
    /// the grid.
    pub fn col_of(&self, index: usize) -> (r: Option<usize>)
        requires
            self@.wf(),
        ensures
            index < self@.total() ==> r == Some((index as int % self@.width as int) as usize),
            index >= self@.total() ==> r is None,
    {
        if index < self.cells.len() {
            Some(index % self.width)
        } else {
            None
        }
    }

    /// Number of slots holding a tile.
    pub fn filled_count(&self) -> (r: usize)
        ensures
            r == count_occupied(self@.cells),
    {
        count_occupied_vec(&self.cells)
    }

    pub(crate) fn from_parts(width: usize, height: usize, cells: Vec<Cell>) -> (r: Grid)
        requires
            width >= 1,
            height >= 1,
            cells@.len() == width * height,
        ensures
            r@.width == width,
            r@.height == height,
            r@.cells == cells@,
    {
        Grid { width, height, cells }
    }

    /// A fresh board: all cells empty, then `starting_fill_count` distinct
    /// cells picked at random are set to `Occupied(starting_value)`. Rejected
    /// when as many tiles are asked for as the grid has cells or more, since
    /// placement could then never finish.
    pub fn new(
        width: usize,
        height: usize,
        starting_fill_count: usize,
        starting_value: u64,
        rng: &mut rand::rngs::StdRng,
    ) -> (r: Result<Grid, ConfigError>)
        requires
            width >= 1,
            height >= 1,
            width * height <= usize::MAX,
            starting_value >= 1,
        ensures
            r is Ok <==> starting_fill_count < width * height,
            r matches Ok(g) ==> {
                &&& g@.wf()
                &&& g@.width == width
                &&& g@.height == height
                &&& count_occupied(g@.cells) == starting_fill_count
                &&& only_value(g@.cells, starting_value)
            },
            r matches Err(e) ==> e == ConfigError::TooManyStartingTiles,
    {
        let total = width * height;
        if starting_fill_count >= total {
            return Err(ConfigError::TooManyStartingTiles);
        }
        let mut cells: Vec<Cell> = Vec::new();
        for i in 0..total
            invariant
                cells@.len() == i,
                forall|p: int| 0 <= p < i ==> cells@[p] == Cell::Empty,
        {
            cells.push(Cell::Empty);
        }
        proof {
            lemma_all_empty_counts(cells@);
        }
        for t in 0..starting_fill_count
            invariant
                cells@.len() == total,
                total == width * height,
                starting_fill_count < total,
                starting_value >= 1,
                count_occupied(cells@) == t,
                only_value(cells@, starting_value),
                all_positive(cells@),
        {
            proof {
                lemma_counts_sum(cells@);
            }
            place_random_tile(&mut cells, starting_value, rng);
        }
        Ok(Grid { width, height, cells })
    }

    /// Put a tile of the given value into one empty slot chosen uniformly at
    /// random among the empty slots.
    pub(crate) fn spawn_one(&mut self, value: u64, rng: &mut rand::rngs::StdRng)
        requires
            count_empty(old(self)@.cells) >= 1,
        ensures
            final(self)@.width == old(self)@.width,
            final(self)@.height == old(self)@.height,
            exists|j: int|
                {
                    &&& 0 <= j < old(self)@.cells.len()
                    &&& old(self)@.cells[j] is Empty
                    &&& final(self)@.cells == old(self)@.cells.update(j, Cell::Occupied(value))
                },
            count_occupied(final(self)@.cells) == count_occupied(old(self)@.cells) + 1,
    {
        place_random_tile(&mut self.cells, value, rng);
    }
}

/// A sequence of only empty slots has no tiles.
pub proof fn lemma_all_empty_counts(s: Seq<Cell>)
    requires
        forall|p: int| 0 <= p < s.len() ==> s[p] == Cell::Empty,
    ensures
        count_occupied(s) == 0,
    decreases s.len(),
{
    if s.len() > 0 {
        lemma_all_empty_counts(s.drop_last());
    }
}

/// The index of the `k`-th empty slot (counting from 0, in index order).
pub(crate) fn find_kth_empty(cells: &Vec<Cell>, k: usize) -> (r: usize)
    requires
        k < count_empty(cells@),
    ensures
        r < cells@.len(),
        cells@[r as int] is Empty,
        count_empty(cells@.take(r as int)) == k,
{
    let n = cells.len();
    let mut seen: usize = 0;
    let mut result: usize = 0;
    let mut found = false;
    for i in 0..n
        invariant
            n == cells@.len(),
            k < count_empty(cells@),
            seen <= i,
            seen == count_empty(cells@.take(i as int)),
            !found ==> seen <= k,
            found ==> {
                &&& result < n
                &&& cells@[result as int] is Empty
                &&& count_empty(cells@.take(result as int)) == k
            },
    {
        proof {
            lemma_count_take_succ(cells@, i as int);
        }
        match cells[i] {
            Cell::Empty => {
                if !found && seen == k {
                    result = i;
                    found = true;
                }
                seen = seen + 1;
            },
            Cell::Occupied(_) => {},
        }
    }
    proof {
        lemma_count_take_all(cells@);
    }
    assert(found);
    result
}

/// Put a tile of the given value into one empty slot chosen uniformly at
/// random among the empty slots.
pub(crate) fn place_random_tile(cells: &mut Vec<Cell>, value: u64, rng: &mut rand::rngs::StdRng)
    requires
        count_empty(old(cells)@) >= 1,
    ensures
        final(cells)@.len() == old(cells)@.len(),
        exists|j: int|
            {
                &&& 0 <= j < old(cells)@.len()
                &&& old(cells)@[j] is Empty
                &&& final(cells)@ == old(cells)@.update(j, Cell::Occupied(value))
            },
        count_occupied(final(cells)@) == count_occupied(old(cells)@) + 1,
{
    proof {
        lemma_counts_sum(cells@);
    }
    let free = cells.len() - count_occupied_vec(cells);
    let k = rand_below(rng, free);
    let j = find_kth_empty(cells, k);
    proof {
        lemma_count_update(cells@, j as int, Cell::Occupied(value));
    }
    cells.set(j, Cell::Occupied(value));
}

/// Number of slots of the vector holding a tile.
pub(crate) fn count_occupied_vec(cells: &Vec<Cell>) -> (r: usize)
    ensures
        r == count_occupied(cells@),
{
    let n = cells.len();
    let mut count: usize = 0;
    for i in 0..n
        invariant
            n == cells@.len(),
            count <= i,
            count == count_occupied(cells@.take(i as int)),
    {
        proof {
            lemma_count_take_succ(cells@, i as int);
        }
        match cells[i] {
            Cell::Occupied(_) => {
                count = count + 1;
            },
            Cell::Empty => {},
        }
    }
    proof {
        lemma_count_take_all(cells@);
    }
    count
}

} // verus!
