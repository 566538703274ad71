use vstd::prelude::*;
use vstd::arithmetic::div_mod::lemma_div_is_ordered;
use crate::cell::{Cell, cell_code};

verus! {

/// Number of decimal digits of `n`, counting 0 as one digit.
pub open spec fn digits10(n: nat) -> nat
    decreases n,
{
    if n < 10 {
        1
    } else {
        1 + digits10(n / 10)
    }
}

/// The largest number any slot displays as: the greatest tile value, or 0 on
/// a board with no tiles.
pub open spec fn max_code(s: Seq<Cell>) -> u64
    decreases s.len(),
{
    if s.len() == 0 {
        0
    } else {
        let m = max_code(s.drop_last());
        if cell_code(s.last()) > m {
            cell_code(s.last())
        } else {
            m
        }
    }
}

/// The column width the board needs on screen: the decimal width of the
/// largest displayed number, at least 2, plus one space.
pub open spec fn spec_padding(s: Seq<Cell>) -> nat {
    (if digits10(max_code(s) as nat) > 2 {
        digits10(max_code(s) as nat)
    } else {
        2nat
    }) + 1
}

proof fn lemma_digits10_pos(n: nat)
    ensures
        digits10(n) >= 1,
{
}

proof fn lemma_digits10_mono(a: nat, b: nat)
    requires
        a <= b,
    ensures
        digits10(a) <= digits10(b),
    decreases b,
{
    if b >= 10 {
        if a < 10 {
            lemma_digits10_pos(b / 10);
        } else {
            lemma_div_is_ordered(a as int, b as int, 10);
            lemma_digits10_mono(a / 10, b / 10);
        }
    }
}

/// How wide each column must be so every tile value on the board fits.
pub fn required_x_padding(board: &Vec<Cell>) -> (r: usize)
    ensures
        r == spec_padding(board@),
{
    let n = board.len();
    let mut max_so_far: u64 = 0;
    for i in 0..n
        invariant
            n == board@.len(),
            max_so_far == max_code(board@.take(i as int)),
    {
        proof {
            assert(board@.take(i + 1).drop_last() =~= board@.take(i as int));
            assert(board@.take(i + 1).last() == board@[i as int]);
        }
        match board[i] {
            Cell::Occupied(v) => {
                if v > max_so_far {
                    max_so_far = v;
                }
            },
            Cell::Empty => {},
        }
    }
    proof {
        assert(board@.take(n as int) =~= board@);
    }
    let ghost m = max_so_far as nat;
    proof {
        lemma_digits10_mono(m, u64::MAX as nat);
        reveal_with_fuel(digits10, 21);
        assert(digits10(u64::MAX as nat) == 20);
    }
    let mut d: usize = 1;
    let mut x: u64 = max_so_far / 10;
    while x > 0
        invariant
            digits10(m) == d + (if x > 0 {
                digits10(x as nat)
            } else {
                0nat
            }),
            digits10(m) <= 20,
        decreases x,
    {
        proof {
            lemma_digits10_pos((x / 10) as nat);
        }
        d = d + 1;
        x = x / 10;
    }
    if d > 2 {
        d + 1
    } else {
        3
    }
}

} // verus!
