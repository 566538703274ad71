use vstd::prelude::*;
use vstd::arithmetic::div_mod::{
    lemma_fundamental_div_mod,
    lemma_fundamental_div_mod_converse,
    lemma_mod_division_less_than_divisor,
    lemma_div_pos_is_pos,
};
use vstd::arithmetic::mul::{lemma_mul_inequality, lemma_mul_strict_inequality};
use crate::cell::{Cell, cell_code};
use crate::grid::{Grid, all_positive, count_occupied, lemma_count_update};

verus! {

/// The four ways a move can point.
#[derive(Clone, Copy, Debug, PartialEq, Eq, Structural)]
pub enum Direction {
    Up,
    Down,
    Left,
    Right,
}

/// One candidate relocation: source index, destination index, and the cell
/// that is to travel.
pub type Relocation = (usize, usize, Cell);

/// Whether the cell at linear index `i` has a neighbour one step in the given
/// direction, with no wraparound (row = `i / w`, column = `i % w`).
pub open spec fn has_step(i: int, w: int, h: int, d: Direction) -> bool {
    match d {
        Direction::Right => i % w + 1 < w,
        Direction::Left => i % w > 0,
        Direction::Up => i / w > 0,
        Direction::Down => i / w + 1 < h,
    }
}

/// The linear index one step in the given direction.
pub open spec fn step_dest(i: int, w: int, d: Direction) -> int {
    match d {
        Direction::Right => i + 1,
        Direction::Left => i - 1,
        Direction::Up => i - w,
        Direction::Down => i + w,
    }
}

/// The `k`-th cell index in the order in which candidates must be processed:
/// cells nearest the move direction come first (top rows first for Up, bottom
/// rows first for Down, leftmost columns first for Left, rightmost first for
/// Right), and within a rank, cells in row-major order.
pub open spec fn order_index(w: int, h: int, d: Direction, k: int) -> int {
    match d {
        Direction::Up => k,
        Direction::Down => (h - 1 - k / w) * w + k % w,
        Direction::Left => (k % h) * w + k / h,
        Direction::Right => (k % h) * w + (w - 1 - k / h),
    }
}

/// The processing rank of cell index `i`: the inverse of `order_index`.
pub open spec fn order_pos(w: int, h: int, d: Direction, i: int) -> int {
    match d {
        Direction::Up => i,
        Direction::Down => (h - 1 - i / w) * w + i % w,
        Direction::Left => (i % w) * h + i / w,
        Direction::Right => (w - 1 - i % w) * h + i / w,
    }
}

/// The candidate the cell at index `i` contributes: a one-step relocation in
/// direction `d`, if the cell holds a tile and the neighbour exists.
pub open spec fn cand_at(cells: Seq<Cell>, w: int, h: int, d: Direction, i: int) -> Option<
    Relocation,
> {
    if cells[i] is Occupied && has_step(i, w, h, d) {
        Some((i as usize, step_dest(i, w, d) as usize, cells[i]))
    } else {
        None
    }
}

/// The candidates contributed by the first `k` cells in processing order.
pub open spec fn cands_upto(cells: Seq<Cell>, w: int, h: int, d: Direction, k: int) -> Seq<
    Relocation,
>
    decreases k,
{
    if k <= 0 {
        Seq::empty()
    } else {
        let prev = cands_upto(cells, w, h, d, k - 1);
        match cand_at(cells, w, h, d, order_index(w, h, d, k - 1)) {
            Some(m) => prev.push(m),
            None => prev,
        }
    }
}

/// All candidate relocations of a move, already in the order in which they
/// must be applied.
pub open spec fn candidates(cells: Seq<Cell>, w: int, h: int, d: Direction) -> Seq<Relocation> {
    cands_upto(cells, w, h, d, w * h)
}

/// Apply one relocation to the working copy. Returns the new cells, how many
/// modifications were applied (0 or 1), and how many of those were merges.
/// A merge whose sum would not fit in the cell's machine word applies nothing.
pub open spec fn apply_one(work: Seq<Cell>, m: Relocation) -> (Seq<Cell>, nat, nat) {
    match m.2 {
        Cell::Occupied(v) => if m.0 < work.len() && m.1 < work.len() && m.0 != m.1 {
            match work[m.1 as int] {
                Cell::Empty => (
                    work.update(m.1 as int, Cell::Occupied(v)).update(m.0 as int, Cell::Empty),
                    1nat,
                    0nat,
                ),
                Cell::Occupied(u) => if u == v && u + v <= u64::MAX {
                    (
                        work.update(m.1 as int, Cell::Occupied((u + v) as u64)).update(
                            m.0 as int,
                            Cell::Empty,
                        ),
                        1nat,
                        1nat,
                    )
                } else {
                    (work, 0nat, 0nat)
                },
            }
        } else {
            (work, 0nat, 0nat)
        },
        Cell::Empty => (work, 0nat, 0nat),
    }
}

/// Apply a list of relocations in order against the evolving working copy,
/// counting applied modifications and merges.
pub open spec fn apply_seq(work: Seq<Cell>, ms: Seq<Relocation>) -> (Seq<Cell>, nat, nat)
    decreases ms.len(),
{
    if ms.len() == 0 {
        (work, 0nat, 0nat)
    } else {
        let first = apply_one(work, ms[0]);
        let rest = apply_seq(first.0, ms.drop_first());
        (rest.0, first.1 + rest.1, first.2 + rest.2)
    }
}

/// The complete effect of one directional input: the new cells, the number of
/// applied modifications, and the number of merges among them.
pub open spec fn move_result(cells: Seq<Cell>, w: int, h: int, d: Direction) -> (
    Seq<Cell>,
    nat,
    nat,
) {
    apply_seq(cells, candidates(cells, w, h, d))
}

// ------------------------------------------------------------------
// Index arithmetic.
// ------------------------------------------------------------------

/// Row/column decomposition of a linear index.
pub proof fn lemma_index_split(i: int, w: int, h: int)
    requires
        w >= 1,
        h >= 1,
        0 <= i < w * h,
    ensures
        0 <= i / w < h,
        0 <= i % w < w,
        i == (i / w) * w + (i % w),
{
    lemma_fundamental_div_mod(i, w);
    lemma_mod_division_less_than_divisor(i, w);
    lemma_div_pos_is_pos(i, w);
    assert(w * (i / w) == (i / w) * w) by (nonlinear_arith);
    if i / w >= h {
        lemma_mul_inequality(h, i / w, w);
        assert(h * w <= (i / w) * w) by (nonlinear_arith)
            requires
                h <= i / w,
                w >= 1,
        ;
        assert(w * h == h * w) by (nonlinear_arith);
        assert(false);
    }
}

/// A row/column pair within bounds gives a linear index within bounds, with
/// that row and column.
pub proof fn lemma_rowmajor(r: int, c: int, w: int, h: int)
    requires
        w >= 1,
        h >= 1,
        0 <= r < h,
        0 <= c < w,
    ensures
        0 <= r * w + c < w * h,
        (r * w + c) / w == r,
        (r * w + c) % w == c,
{
    lemma_fundamental_div_mod_converse(r * w + c, w, r, c);
    assert(r * w >= 0) by (nonlinear_arith)
        requires
            r >= 0,
            w >= 1,
    ;
    lemma_mul_inequality(r, h - 1, w);
    assert((h - 1) * w + w == w * h) by (nonlinear_arith);
}

/// Applying the processing order and then taking the rank of the result is
/// the identity, and the ordered index stays inside the grid.
pub proof fn lemma_order_roundtrip(w: int, h: int, d: Direction, k: int)
    requires
        w >= 1,
        h >= 1,
        0 <= k < w * h,
    ensures
        0 <= order_index(w, h, d, k) < w * h,
        order_pos(w, h, d, order_index(w, h, d, k)) == k,
{
    match d {
        Direction::Up => {},
        Direction::Down => {
            lemma_index_split(k, w, h);
            lemma_rowmajor(h - 1 - k / w, k % w, w, h);
        },
        Direction::Left => {
            assert(h * w == w * h) by (nonlinear_arith);
            lemma_index_split(k, h, w);
            lemma_rowmajor(k % h, k / h, w, h);
        },
        Direction::Right => {
            assert(h * w == w * h) by (nonlinear_arith);
            lemma_index_split(k, h, w);
            lemma_rowmajor(k % h, w - 1 - k / h, w, h);
        },
    }
}

/// Taking the rank of a cell index and then applying the processing order is
/// the identity, and the rank stays inside the grid.
pub proof fn lemma_order_surjective(w: int, h: int, d: Direction, i: int)
    requires
        w >= 1,
        h >= 1,
        0 <= i < w * h,
    ensures
        0 <= order_pos(w, h, d, i) < w * h,
        order_index(w, h, d, order_pos(w, h, d, i)) == i,
{
    lemma_index_split(i, w, h);
    match d {
        Direction::Up => {},
        Direction::Down => {
            lemma_rowmajor(h - 1 - i / w, i % w, w, h);
        },
        Direction::Left => {
            lemma_rowmajor(i % w, i / w, h, w);
            assert(h * w == w * h) by (nonlinear_arith);
        },
        Direction::Right => {
            lemma_rowmajor(w - 1 - i % w, i / w, h, w);
            assert(h * w == w * h) by (nonlinear_arith);
        },
    }
}

/// The destination of a step lies inside the grid, differs from its source,
/// and is processed strictly earlier.
pub proof fn lemma_dest_earlier(i: int, w: int, h: int, d: Direction)
    requires
        w >= 1,
        h >= 1,
        0 <= i < w * h,
        has_step(i, w, h, d),
    ensures
        0 <= step_dest(i, w, d) < w * h,
        step_dest(i, w, d) != i,
        order_pos(w, h, d, step_dest(i, w, d)) < order_pos(w, h, d, i),
{
    lemma_index_split(i, w, h);
    let r = i / w;
    let c = i % w;
    match d {
        Direction::Up => {
            lemma_rowmajor(r - 1, c, w, h);
            assert((r - 1) * w + c == i - w) by (nonlinear_arith)
                requires
                    i == r * w + c,
            ;
        },
        Direction::Down => {
            lemma_rowmajor(r + 1, c, w, h);
            assert((r + 1) * w + c == i + w) by (nonlinear_arith)
                requires
                    i == r * w + c,
            ;
            assert((i + w) / w == r + 1 && (i + w) % w == c);
            lemma_mul_strict_inequality(h - 2 - r, h - 1 - r, w);
        },
        Direction::Left => {
            lemma_rowmajor(r, c - 1, w, h);
            assert((i - 1) / w == r && (i - 1) % w == c - 1);
            lemma_mul_strict_inequality(c - 1, c, h);
        },
        Direction::Right => {
            lemma_rowmajor(r, c + 1, w, h);
            assert((i + 1) / w == r && (i + 1) % w == c + 1);
            lemma_mul_strict_inequality(w - 2 - c, w - 1 - c, h);
        },
    }
}

// ------------------------------------------------------------------
// Facts about the candidate list.
// ------------------------------------------------------------------

/// A relocation as phase one produces it: in bounds, sourced from a tile, one
/// step toward the move direction, carrying that tile.
pub open spec fn reloc_ok(cells: Seq<Cell>, w: int, h: int, d: Direction, m: Relocation) -> bool {
    &&& m.0 < cells.len()
    &&& m.1 < cells.len()
    &&& m.0 != m.1
    &&& m.2 == cells[m.0 as int]
    &&& m.2 is Occupied
    &&& has_step(m.0 as int, w, h, d)
    &&& m.1 == step_dest(m.0 as int, w, d)
}

/// What the application lemmas need of a pending relocation list against the
/// current working copy: every entry is shaped like a relocation, the working
/// copy still holds each entry's recorded cell at its source, and no earlier
/// entry's source or destination is a later entry's source.
pub open spec fn pending_ok(work: Seq<Cell>, ms: Seq<Relocation>) -> bool {
    &&& forall|p: int|
        0 <= p < ms.len() ==> {
            &&& (#[trigger] ms[p]).0 < work.len()
            &&& ms[p].1 < work.len()
            &&& ms[p].0 != ms[p].1
            &&& ms[p].2 is Occupied
            &&& work[ms[p].0 as int] == ms[p].2
        }
    &&& forall|p: int, q: int|
        0 <= p < q < ms.len() ==> (#[trigger] ms[q]).0 != (#[trigger] ms[p]).0 && ms[q].0
            != ms[p].1
}

/// The candidates contributed by the first `k` cells in processing order are
/// well shaped, strictly ordered by processing rank below `k`, and complete:
/// every eligible cell of rank below `k` contributes exactly one entry.
proof fn lemma_cands_upto_ok(cells: Seq<Cell>, w: int, h: int, d: Direction, k: int)
    requires
        w >= 1,
        h >= 1,
        cells.len() == w * h,
        w * h <= usize::MAX,
        0 <= k <= w * h,
    ensures
        ({
            let ms = cands_upto(cells, w, h, d, k);
            &&& ms.len() <= k
            &&& forall|p: int|
                0 <= p < ms.len() ==> reloc_ok(cells, w, h, d, #[trigger] ms[p]) && order_pos(
                    w,
                    h,
                    d,
                    ms[p].0 as int,
                ) < k
            &&& forall|p: int, q: int|
                0 <= p < q < ms.len() ==> order_pos(w, h, d, (#[trigger] ms[p]).0 as int)
                    < order_pos(w, h, d, (#[trigger] ms[q]).0 as int)
            &&& forall|i: int|
                0 <= i < w * h && order_pos(w, h, d, i) < k && (#[trigger] cells[i]) is Occupied
                    && has_step(i, w, h, d) ==> exists|p: int|
                    0 <= p < ms.len() && #[trigger] ms[p] == (
                        i as usize,
                        step_dest(i, w, d) as usize,
                        cells[i],
                    )
        }),
    decreases k,
{
    if k > 0 {
        lemma_cands_upto_ok(cells, w, h, d, k - 1);
        let prev = cands_upto(cells, w, h, d, k - 1);
        let ms = cands_upto(cells, w, h, d, k);
        let ik = order_index(w, h, d, k - 1);
        lemma_order_roundtrip(w, h, d, k - 1);
        if cells[ik] is Occupied && has_step(ik, w, h, d) {
            lemma_dest_earlier(ik, w, h, d);
            let m = (ik as usize, step_dest(ik, w, d) as usize, cells[ik]);
            assert(ms == prev.push(m));
            assert(reloc_ok(cells, w, h, d, m));
            assert forall|i: int|
                0 <= i < w * h && order_pos(w, h, d, i) < k && (#[trigger] cells[i]) is Occupied
                    && has_step(i, w, h, d) implies exists|p: int|
                0 <= p < ms.len() && #[trigger] ms[p] == (
                    i as usize,
                    step_dest(i, w, d) as usize,
                    cells[i],
                ) by {
                if order_pos(w, h, d, i) < k - 1 {
                    let p = choose|p: int|
                        0 <= p < prev.len() && #[trigger] prev[p] == (
                            i as usize,
                            step_dest(i, w, d) as usize,
                            cells[i],
                        );
                    assert(ms[p] == (i as usize, step_dest(i, w, d) as usize, cells[i]));
                } else {
                    lemma_order_surjective(w, h, d, i);
                    assert(i == ik);
                    assert(ms[ms.len() - 1] == (
                        i as usize,
                        step_dest(i, w, d) as usize,
                        cells[i],
                    ));
                }
            }
        } else {
            assert(ms == prev);
            assert forall|i: int|
                0 <= i < w * h && order_pos(w, h, d, i) < k && (#[trigger] cells[i]) is Occupied
                    && has_step(i, w, h, d) implies exists|p: int|
                0 <= p < ms.len() && #[trigger] ms[p] == (
                    i as usize,
                    step_dest(i, w, d) as usize,
                    cells[i],
                ) by {
                if order_pos(w, h, d, i) >= k - 1 {
                    lemma_order_surjective(w, h, d, i);
                    assert(i == ik);
                    assert(false);
                }
            }
        }
    }
}

/// The candidate list of a move is well shaped, strictly ordered by
/// processing rank, complete, and fit to be applied against the same cells.
pub proof fn lemma_candidates_ok(cells: Seq<Cell>, w: int, h: int, d: Direction)
    requires
        w >= 1,
        h >= 1,
        cells.len() == w * h,
        w * h <= usize::MAX,
    ensures
        ({
            let ms = candidates(cells, w, h, d);
            &&& ms.len() <= w * h
            &&& forall|p: int| 0 <= p < ms.len() ==> reloc_ok(cells, w, h, d, #[trigger] ms[p])
            &&& pending_ok(cells, ms)
            &&& forall|i: int|
                0 <= i < w * h && (#[trigger] cells[i]) is Occupied && has_step(i, w, h, d)
                    ==> exists|p: int|
                    0 <= p < ms.len() && #[trigger] ms[p] == (
                        i as usize,
                        step_dest(i, w, d) as usize,
                        cells[i],
                    )
        }),
{
    lemma_cands_upto_ok(cells, w, h, d, w * h);
    let ms = candidates(cells, w, h, d);
    assert forall|i: int|
        0 <= i < w * h && (#[trigger] cells[i]) is Occupied && has_step(i, w, h, d) implies exists|
        p: int,
    |
        0 <= p < ms.len() && #[trigger] ms[p] == (
            i as usize,
            step_dest(i, w, d) as usize,
            cells[i],
        ) by {
        lemma_order_surjective(w, h, d, i);
    }
    assert forall|p: int, q: int| 0 <= p < q < ms.len() implies (#[trigger] ms[q]).0 != (
    #[trigger] ms[p]).0 && ms[q].0 != ms[p].1 by {
        lemma_dest_earlier(ms[p].0 as int, w, h, d);
        assert(order_pos(w, h, d, ms[p].0 as int) < order_pos(w, h, d, ms[q].0 as int));
    }
}

// ------------------------------------------------------------------
// Facts about applying a relocation list.
// ------------------------------------------------------------------

/// Applying a relocation never changes how many slots there are.
pub proof fn lemma_apply_one_len(work: Seq<Cell>, m: Relocation)
    ensures
        apply_one(work, m).0.len() == work.len(),
{
}

/// A relocation touches no slot besides its source and destination.
pub proof fn lemma_apply_one_frame(work: Seq<Cell>, m: Relocation, j: int)
    requires
        0 <= j < work.len(),
        j != m.0,
        j != m.1,
    ensures
        apply_one(work, m).0[j] == work[j],
{
}

/// Applying a relocation list never changes how many slots there are.
pub proof fn lemma_apply_seq_len(work: Seq<Cell>, ms: Seq<Relocation>)
    ensures
        apply_seq(work, ms).0.len() == work.len(),
    decreases ms.len(),
{
    if ms.len() > 0 {
        lemma_apply_one_len(work, ms[0]);
        lemma_apply_seq_len(apply_one(work, ms[0]).0, ms.drop_first());
    }
}

/// Applying the first pending relocation leaves the rest of the list pending:
/// the slots it writes are its own source and destination, and neither is the
/// source of a later entry.
proof fn lemma_pending_step(work: Seq<Cell>, ms: Seq<Relocation>)
    requires
        pending_ok(work, ms),
        ms.len() > 0,
    ensures
        pending_ok(apply_one(work, ms[0]).0, ms.drop_first()),
{
    let w1 = apply_one(work, ms[0]).0;
    let rest = ms.drop_first();
    lemma_apply_one_len(work, ms[0]);
    assert forall|p: int|
        0 <= p < rest.len() implies {
        &&& (#[trigger] rest[p]).0 < w1.len()
        &&& rest[p].1 < w1.len()
        &&& rest[p].0 != rest[p].1
        &&& rest[p].2 is Occupied
        &&& w1[rest[p].0 as int] == rest[p].2
    } by {
        assert(rest[p] == ms[p + 1]);
        assert(ms[p + 1].0 != ms[0].0 && ms[p + 1].0 != ms[0].1);
        lemma_apply_one_frame(work, ms[0], ms[p + 1].0 as int);
    }
    assert forall|p: int, q: int|
        0 <= p < q < rest.len() implies (#[trigger] rest[q]).0 != (#[trigger] rest[p]).0
            && rest[q].0 != rest[p].1 by {
        assert(rest[p] == ms[p + 1] && rest[q] == ms[q + 1]);
        assert(ms[q + 1].0 != ms[p + 1].0 && ms[q + 1].0 != ms[p + 1].1);
    }
}

/// Applying a pending relocation list keeps every tile value positive, loses
/// exactly one tile per merge, and counts at most one modification per entry.
pub proof fn lemma_apply_seq_props(work: Seq<Cell>, ms: Seq<Relocation>)
    requires
        pending_ok(work, ms),
        all_positive(work),
    ensures
        ({
            let r = apply_seq(work, ms);
            &&& r.0.len() == work.len()
            &&& count_occupied(r.0) + r.2 == count_occupied(work)
            &&& r.2 <= r.1
            &&& r.1 <= ms.len()
            &&& all_positive(r.0)
        }),
    decreases ms.len(),
{
    lemma_apply_seq_len(work, ms);
    if ms.len() > 0 {
        let m = ms[0];
        let first = apply_one(work, m);
        assert(work[m.0 as int] == m.2 && m.2 is Occupied);
        match m.2 {
            Cell::Occupied(v) => {
                assert(v >= 1);
                match work[m.1 as int] {
                    Cell::Empty => {
                        let mid = work.update(m.1 as int, Cell::Occupied(v));
                        lemma_count_update(work, m.1 as int, Cell::Occupied(v));
                        lemma_count_update(mid, m.0 as int, Cell::Empty);
                        assert(mid[m.0 as int] == m.2);
                    },
                    Cell::Occupied(u) => {
                        if u == v && u + v <= u64::MAX {
                            let mid = work.update(m.1 as int, Cell::Occupied((u + v) as u64));
                            lemma_count_update(work, m.1 as int, Cell::Occupied((u + v) as u64));
                            lemma_count_update(mid, m.0 as int, Cell::Empty);
                            assert(mid[m.0 as int] == m.2);
                        }
                    },
                }
            },
            Cell::Empty => {},
        }
        assert(all_positive(first.0)) by {
            assert forall|j: int|
                0 <= j < first.0.len() implies ((#[trigger] first.0[j]) matches Cell::Occupied(
                x,
            ) ==> x >= 1) by {
                if j != m.0 && j != m.1 {
                    lemma_apply_one_frame(work, m, j);
                }
            }
        }
        lemma_pending_step(work, ms);
        lemma_apply_seq_props(first.0, ms.drop_first());
    }
}

/// A slot that no relocation of the list names is left exactly as it was.
pub proof fn lemma_apply_seq_frame(work: Seq<Cell>, ms: Seq<Relocation>, j: int)
    requires
        0 <= j < work.len(),
        forall|p: int| 0 <= p < ms.len() ==> (#[trigger] ms[p]).0 != j && ms[p].1 != j,
    ensures
        apply_seq(work, ms).0[j] == work[j],
    decreases ms.len(),
{
    if ms.len() > 0 {
        let first = apply_one(work, ms[0]);
        lemma_apply_one_len(work, ms[0]);
        lemma_apply_one_frame(work, ms[0], j);
        assert forall|p: int|
            0 <= p < ms.drop_first().len() implies (#[trigger] ms.drop_first()[p]).0 != j
                && ms.drop_first()[p].1 != j by {
            assert(ms.drop_first()[p] == ms[p + 1]);
        }
        lemma_apply_seq_frame(first.0, ms.drop_first(), j);
    }
}

/// A slot holding a tile that is never the source of a relocation keeps a
/// tile, and its value never shrinks: the only thing that can happen to it is
/// a merge into it.
pub proof fn lemma_apply_seq_not_source(work: Seq<Cell>, ms: Seq<Relocation>, j: int)
    requires
        0 <= j < work.len(),
        work[j] is Occupied,
        forall|p: int| 0 <= p < ms.len() ==> (#[trigger] ms[p]).0 != j,
    ensures
        apply_seq(work, ms).0[j] is Occupied,
        cell_code(apply_seq(work, ms).0[j]) >= cell_code(work[j]),
    decreases ms.len(),
{
    if ms.len() > 0 {
        let first = apply_one(work, ms[0]);
        lemma_apply_one_len(work, ms[0]);
        if ms[0].1 == j {
            assert(first.0[j] is Occupied && cell_code(first.0[j]) >= cell_code(work[j]));
        } else {
            lemma_apply_one_frame(work, ms[0], j);
        }
        assert forall|p: int|
            0 <= p < ms.drop_first().len() implies (#[trigger] ms.drop_first()[p]).0 != j by {
            assert(ms.drop_first()[p] == ms[p + 1]);
        }
        lemma_apply_seq_not_source(first.0, ms.drop_first(), j);
    }
}

/// A slot that is never a source and is the destination of exactly one
/// pending relocation: its tile merges with the incoming tile when the values
/// match and the sum fits, and stays exactly as it was otherwise; in the
/// latter case the incoming tile stays behind, occupied, worth at least what
/// it was.
pub proof fn lemma_apply_seq_unique_incoming(
    work: Seq<Cell>,
    ms: Seq<Relocation>,
    t: int,
    b: usize,
    f: usize,
    v: u64,
    u: u64,
)
    requires
        pending_ok(work, ms),
        0 <= t < ms.len(),
        ms[t] == (b, f, Cell::Occupied(v)),
        work[f as int] == Cell::Occupied(u),
        forall|p: int| 0 <= p < ms.len() ==> (#[trigger] ms[p]).0 != f,
        forall|p: int| 0 <= p < ms.len() && (#[trigger] ms[p]).1 == f ==> p == t,
    ensures
        apply_seq(work, ms).0[f as int] == if u == v && u + v <= u64::MAX {
            Cell::Occupied((u + v) as u64)
        } else {
            Cell::Occupied(u)
        },
        !(u == v && u + v <= u64::MAX) ==> apply_seq(work, ms).0[b as int] is Occupied
            && cell_code(apply_seq(work, ms).0[b as int]) >= v,
    decreases ms.len(),
{
    let first = apply_one(work, ms[0]);
    let rest = ms.drop_first();
    lemma_apply_one_len(work, ms[0]);
    assert(work[b as int] == Cell::Occupied(v));
    assert(b != f);
    if ms[0] == (b, f, Cell::Occupied(v)) {
        assert(t == 0) by {
            if t != 0 {
                assert(ms[t].0 == ms[0].0);
            }
        }
        assert forall|p: int|
            0 <= p < rest.len() implies (#[trigger] rest[p]).0 != f && rest[p].1 != f by {
            assert(rest[p] == ms[p + 1]);
            assert(ms[p + 1].1 == f ==> p + 1 == t);
        }
        if u == v && u + v <= u64::MAX {
            assert(first.0[f as int] == Cell::Occupied((u + v) as u64));
            lemma_apply_seq_frame(first.0, rest, f as int);
        } else {
            assert(first == (work, 0nat, 0nat));
            lemma_apply_seq_frame(work, rest, f as int);
            assert forall|p: int|
                0 <= p < rest.len() implies (#[trigger] rest[p]).0 != b by {
                assert(rest[p] == ms[p + 1]);
                assert(ms[p + 1].0 != ms[0].0);
            }
            lemma_apply_seq_not_source(work, rest, b as int);
        }
    } else {
        assert(t != 0);
        assert(ms[0].0 != f);
        assert(ms[0].1 != f);
        lemma_apply_one_frame(work, ms[0], f as int);
        lemma_pending_step(work, ms);
        assert(rest[t - 1] == ms[t]);
        assert forall|p: int|
            0 <= p < rest.len() implies (#[trigger] rest[p]).0 != f by {
            assert(rest[p] == ms[p + 1]);
        }
        assert forall|p: int|
            0 <= p < rest.len() && (#[trigger] rest[p]).1 == f implies p == t - 1 by {
            assert(rest[p] == ms[p + 1]);
        }
        lemma_apply_seq_unique_incoming(first.0, rest, t - 1, b, f, v, u);
    }
}

// ------------------------------------------------------------------
// Laws of a move.
// ------------------------------------------------------------------

/// A move never changes the number of tiles except by reducing it exactly by
/// the number of merges it performs: each merge removes one tile.
pub proof fn lemma_move_tile_count(cells: Seq<Cell>, w: int, h: int, d: Direction)
    requires
        w >= 1,
        h >= 1,
        cells.len() == w * h,
        w * h <= usize::MAX,
        all_positive(cells),
    ensures
        ({
            let r = move_result(cells, w, h, d);
            &&& count_occupied(r.0) + r.2 == count_occupied(cells)
            &&& r.2 <= r.1
            &&& r.1 <= cells.len()
        }),
{
    lemma_candidates_ok(cells, w, h, d);
    lemma_apply_seq_props(cells, candidates(cells, w, h, d));
}

/// A tile already touching the boundary in the move direction is never
/// relocated by that move: its slot keeps a tile, whose value can only have
/// grown by a merge into it.
pub proof fn lemma_boundary_tile_stays(cells: Seq<Cell>, w: int, h: int, d: Direction, i: int)
    requires
        w >= 1,
        h >= 1,
        cells.len() == w * h,
        w * h <= usize::MAX,
        0 <= i < w * h,
        cells[i] is Occupied,
        !has_step(i, w, h, d),
    ensures
        move_result(cells, w, h, d).0[i] is Occupied,
        cell_code(move_result(cells, w, h, d).0[i]) >= cell_code(cells[i]),
{
    lemma_candidates_ok(cells, w, h, d);
    let ms = candidates(cells, w, h, d);
    assert forall|p: int| 0 <= p < ms.len() implies (#[trigger] ms[p]).0 != i by {
        assert(reloc_ok(cells, w, h, d, ms[p]));
    }
    lemma_apply_seq_not_source(cells, ms, i);
}

/// Two equal tiles one step apart in the move direction, the front one
/// against the boundary, merge: the front slot ends with one tile worth their
/// sum.
pub proof fn lemma_merge_equal_neighbor(cells: Seq<Cell>, w: int, h: int, d: Direction, b: int, v: u64)
    requires
        w >= 1,
        h >= 1,
        cells.len() == w * h,
        w * h <= usize::MAX,
        0 <= b < w * h,
        has_step(b, w, h, d),
        !has_step(step_dest(b, w, d), w, h, d),
        cells[b] == Cell::Occupied(v),
        cells[step_dest(b, w, d)] == Cell::Occupied(v),
        v + v <= u64::MAX,
    ensures
        move_result(cells, w, h, d).0[step_dest(b, w, d)] == Cell::Occupied((v + v) as u64),
{
    lemma_unique_incoming_setup(cells, w, h, d, b, v, v);
}

/// A tile one step behind an unequal tile that sits against the boundary
/// moves nowhere: the front slot is untouched, and the back slot keeps a
/// tile worth at least what it was.
pub proof fn lemma_unequal_neighbor_stays(
    cells: Seq<Cell>,
    w: int,
    h: int,
    d: Direction,
    b: int,
    v: u64,
    u: u64,
)
    requires
        w >= 1,
        h >= 1,
        cells.len() == w * h,
        w * h <= usize::MAX,
        0 <= b < w * h,
        has_step(b, w, h, d),
        !has_step(step_dest(b, w, d), w, h, d),
        cells[b] == Cell::Occupied(v),
        cells[step_dest(b, w, d)] == Cell::Occupied(u),
        u != v,
    ensures
        move_result(cells, w, h, d).0[step_dest(b, w, d)] == Cell::Occupied(u),
        move_result(cells, w, h, d).0[b] is Occupied,
        cell_code(move_result(cells, w, h, d).0[b]) >= v,
{
    lemma_unique_incoming_setup(cells, w, h, d, b, v, u);
}

/// Common setup for the two neighbour laws: in the candidate list of the
/// move, the back cell's relocation is the only one that names the front
/// cell, so `lemma_apply_seq_unique_incoming` applies.
proof fn lemma_unique_incoming_setup(
    cells: Seq<Cell>,
    w: int,
    h: int,
    d: Direction,
    b: int,
    v: u64,
    u: u64,
)
    requires
        w >= 1,
        h >= 1,
        cells.len() == w * h,
        w * h <= usize::MAX,
        0 <= b < w * h,
        has_step(b, w, h, d),
        !has_step(step_dest(b, w, d), w, h, d),
        cells[b] == Cell::Occupied(v),
        cells[step_dest(b, w, d)] == Cell::Occupied(u),
    ensures
        move_result(cells, w, h, d).0[step_dest(b, w, d)] == if u == v && u + v <= u64::MAX {
            Cell::Occupied((u + v) as u64)
        } else {
            Cell::Occupied(u)
        },
        !(u == v && u + v <= u64::MAX) ==> move_result(cells, w, h, d).0[b] is Occupied
            && cell_code(move_result(cells, w, h, d).0[b]) >= v,
{
    lemma_candidates_ok(cells, w, h, d);
    lemma_dest_earlier(b, w, h, d);
    let f = step_dest(b, w, d);
    let ms = candidates(cells, w, h, d);
    let t = choose|t: int|
        0 <= t < ms.len() && #[trigger] ms[t] == (b as usize, f as usize, cells[b]);
    assert(0 <= t < ms.len() && ms[t] == (b as usize, f as usize, cells[b]));
    assert forall|p: int| 0 <= p < ms.len() implies (#[trigger] ms[p]).0 != f as usize by {
        assert(reloc_ok(cells, w, h, d, ms[p]));
        if ms[p].0 == f as usize {
            assert(has_step(f, w, h, d));
        }
    }
    assert forall|p: int|
        0 <= p < ms.len() && (#[trigger] ms[p]).1 == f as usize implies p == t by {
        assert(reloc_ok(cells, w, h, d, ms[p]));
        assert(step_dest(ms[p].0 as int, w, d) == step_dest(b, w, d));
        assert(ms[p].0 == b as usize);
        if p < t {
            assert(ms[t].0 != ms[p].0);
        }
        if t < p {
            assert(ms[p].0 != ms[t].0);
        }
    }
    lemma_apply_seq_unique_incoming(cells, ms, t, b as usize, f as usize, v, u);
}

// ------------------------------------------------------------------
// The executable move engine.
// ------------------------------------------------------------------

/// Phase one: every cell holding a tile whose one-step neighbour in the move
/// direction exists contributes one candidate relocation. The candidates are
/// produced already in the order in which they must be applied (see
/// `order_index`), so that no tile is displaced into a slot another tile is
/// still about to vacate.
pub fn move_cells(grid: &Grid, direction: Direction) -> (r: Vec<Relocation>)
    requires
        grid@.wf(),
    ensures
        r@ == candidates(grid@.cells, grid@.width as int, grid@.height as int, direction),
{
    let w = grid.width();
    let h = grid.height();
    let total = grid.total_cells();
    let ghost cw = grid@.width as int;
    let ghost ch = grid@.height as int;
    let ghost cs = grid@.cells;
    let mut modifications: Vec<Relocation> = Vec::new();
    assert(modifications@ =~= cands_upto(cs, cw, ch, direction, 0));
    for k in 0..total
        invariant
            grid@.wf(),
            w == cw,
            h == ch,
            total == cw * ch,
            cs == grid@.cells,
            total == cs.len(),
            modifications@ == cands_upto(cs, cw, ch, direction, k as int),
    {
        proof {
            lemma_order_roundtrip(cw, ch, direction, k as int);
            lemma_index_split(k as int, cw, ch);
            assert(ch * cw == cw * ch) by (nonlinear_arith);
            lemma_index_split(k as int, ch, cw);
        }
        let i: usize = match direction {
            Direction::Up => k,
            Direction::Down => (h - 1 - k / w) * w + k % w,
            Direction::Left => (k % h) * w + k / h,
            Direction::Right => (k % h) * w + (w - 1 - k / h),
        };
        assert(i as int == order_index(cw, ch, direction, k as int));
        let cell = grid.cell_at(i);
        match cell {
            Cell::Occupied(_) => {
                match direction {
                    Direction::Right => {
                        let col = i % w;
                        if col + 1 < w {
                            proof {
                                lemma_dest_earlier(i as int, cw, ch, direction);
                            }
                            modifications.push((i, i + 1, cell));
                        }
                    },
                    Direction::Left => {
                        let col = i % w;
                        if col > 0 {
                            proof {
                                lemma_dest_earlier(i as int, cw, ch, direction);
                            }
                            modifications.push((i, i - 1, cell));
                        }
                    },
                    Direction::Up => {
                        let row = i / w;
                        if row > 0 {
                            proof {
                                lemma_dest_earlier(i as int, cw, ch, direction);
                            }
                            modifications.push((i, i - w, cell));
                        }
                    },
                    Direction::Down => {
                        let row = i / w;
                        if row + 1 < h {
                            proof {
                                lemma_dest_earlier(i as int, cw, ch, direction);
                            }
                            modifications.push((i, i + w, cell));
                        }
                    },
                }
            },
            Cell::Empty => {},
        }
        assert(modifications@ == cands_upto(cs, cw, ch, direction, k + 1));
    }
    modifications
}

/// Unfolding one step of `apply_seq` in the middle of the list.
proof fn lemma_apply_seq_skip(work: Seq<Cell>, ms: Seq<Relocation>, idx: int)
    requires
        0 <= idx < ms.len(),
    ensures
        ({
            let first = apply_one(work, ms[idx]);
            let rest = apply_seq(first.0, ms.skip(idx + 1));
            apply_seq(work, ms.skip(idx)) == (rest.0, (first.1 + rest.1) as nat, (first.2
                + rest.2) as nat)
        }),
{
    let s = ms.skip(idx);
    assert(s[0] == ms[idx]);
    assert(s.drop_first() =~= ms.skip(idx + 1));
}

/// Phase two: apply each relocation, in the given order, against the evolving
/// working copy. A relocation moves its tile into an empty neighbour, merges
/// it into an equal-valued neighbour (doubling it), and otherwise leaves
/// everything in place; each applied modification is counted.
pub fn apply_modifications(board: Vec<Cell>, modifications: &Vec<Relocation>) -> (r: (
    Vec<Cell>,
    usize,
))
    ensures
        r.0@ == apply_seq(board@, modifications@).0,
        r.1 == apply_seq(board@, modifications@).1,
{
    let ghost board0 = board@;
    let ghost ms = modifications@;
    let mut board = board;
    let mut applied: usize = 0;
    assert(ms.skip(0) =~= ms);
    let n = modifications.len();
    for idx in 0..n
        invariant
            n == ms.len(),
            ms == modifications@,
            applied <= idx,
            apply_seq(board0, ms).0 == apply_seq(board@, ms.skip(idx as int)).0,
            apply_seq(board0, ms).1 == applied + apply_seq(board@, ms.skip(idx as int)).1,
    {
        proof {
            lemma_apply_seq_skip(board@, ms, idx as int);
        }
        let (src, dst, cellm) = modifications[idx];
        match cellm {
            Cell::Occupied(new_val) => {
                if src < board.len() && dst < board.len() && src != dst {
                    let current = board[dst];
                    match current {
                        Cell::Occupied(val) => {
                            if val == new_val && new_val <= u64::MAX - val {
                                board.set(dst, Cell::Occupied(val + new_val));
                                board.set(src, Cell::Empty);
                                applied = applied + 1;
                            }
                        },
                        Cell::Empty => {
                            board.set(dst, cellm);
                            board.set(src, Cell::Empty);
                            applied = applied + 1;
                        },
                    }
                }
            },
            Cell::Empty => {},
        }
    }
    assert(ms.skip(n as int) =~= Seq::<Relocation>::empty());
    (board, applied)
}

/// One directional input: compute the candidate relocations and apply them,
/// returning the new grid and how many modifications were applied. Pure in
/// the grid and the direction; the grid handed in is left untouched.
pub fn apply_direction(grid: &Grid, direction: Direction) -> (r: (Grid, usize))
    requires
        grid@.wf(),
    ensures
        ({
            let m = move_result(grid@.cells, grid@.width as int, grid@.height as int, direction);
            &&& r.0@.wf()
            &&& r.0@.width == grid@.width
            &&& r.0@.height == grid@.height
            &&& r.0@.cells == m.0
            &&& r.1 == m.1
        }),
{
    let modifications = move_cells(grid, direction);
    let board = grid.cells_clone();
    let total = grid.total_cells();
    assert(grid@.width * grid@.height <= usize::MAX);
    proof {
        lemma_candidates_ok(
            grid@.cells,
            grid@.width as int,
            grid@.height as int,
            direction,
        );
        lemma_apply_seq_props(
            grid@.cells,
            candidates(grid@.cells, grid@.width as int, grid@.height as int, direction),
        );
    }
    let (new_board, applied) = apply_modifications(board, &modifications);
    let g = Grid::from_parts(grid.width(), grid.height(), new_board);
    (g, applied)
}

/// In one pass, no destination cell can receive two separate relocations:
/// each cell is the destination of at most one candidate, since only the one
/// cell a step behind it can target it.
pub proof fn lemma_destinations_distinct(cells: Seq<Cell>, w: int, h: int, d: Direction)
    requires
        w >= 1,
        h >= 1,
        cells.len() == w * h,
        w * h <= usize::MAX,
    ensures
        forall|p: int, q: int|
            0 <= p < q < candidates(cells, w, h, d).len() ==> (#[trigger] candidates(
                cells,
                w,
                h,
                d,
            )[p]).1 != (#[trigger] candidates(cells, w, h, d)[q]).1,
{
    lemma_candidates_ok(cells, w, h, d);
    let ms = candidates(cells, w, h, d);
    assert forall|p: int, q: int|
        0 <= p < q < ms.len() implies (#[trigger] ms[p]).1 != (#[trigger] ms[q]).1 by {
        assert(reloc_ok(cells, w, h, d, ms[p]));
        assert(reloc_ok(cells, w, h, d, ms[q]));
        if ms[p].1 == ms[q].1 {
            assert(step_dest(ms[p].0 as int, w, d) == step_dest(ms[q].0 as int, w, d));
            assert(ms[p].0 == ms[q].0);
        }
    }
}

/// A pass whose applied count is zero changed nothing: every candidate was
/// evaluated against the working copy and left everything in place.
pub proof fn lemma_zero_applied_unchanged(work: Seq<Cell>, ms: Seq<Relocation>)
    ensures
        apply_seq(work, ms).1 == 0 ==> apply_seq(work, ms).0 == work,
    decreases ms.len(),
{
    if ms.len() > 0 {
        let first = apply_one(work, ms[0]);
        lemma_zero_applied_unchanged(first.0, ms.drop_first());
        if apply_seq(work, ms).1 == 0 {
            assert(first.0 == work);
        }
    }
}

} // verus!
