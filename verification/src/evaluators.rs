//! How good a board looks to the player.

use crate::board::{free_count, line_of, Board, Swipe};
use crate::line::lemma_tiles_shape;
use crate::tile::two_to;
use vstd::prelude::*;

verus! {

/// What each empty cell is worth.
pub const EMPTY_WEIGHT: i16 = 64;

/// What each edge of the board is worth whose tiles stand in order.
pub const ORDER_WEIGHT: i16 = 48;

/// What each doubling of the largest tile is worth.
pub const RANK_WEIGHT: i16 = 16;

/// What it is worth to have the largest tile in a corner.
pub const CORNER_BONUS: i16 = 128;

/// The best score that a board can get.
pub const MAX_SCORE: i16 = 1840;

/// How often `v` can be halved before it drops below 2: the exponent of a
/// tile, and `0` for an empty cell.
pub open spec fn rank(v: nat) -> nat
    decreases v,
{
    if v < 2 {
        0
    } else {
        1 + rank(v / 2)
    }
}

/// The largest value in `s`; `0` where `s` is empty.
pub open spec fn largest(s: Seq<nat>) -> nat
    decreases s.len(),
{
    if s.len() == 0 {
        0
    } else if s[0] >= largest(s.drop_first()) {
        s[0]
    } else {
        largest(s.drop_first())
    }
}

/// No value in `l` is smaller than one before it.
pub open spec fn ascending(l: Seq<nat>) -> bool {
    forall|i: int, j: int| 0 <= i <= j < l.len() ==> l[i] <= l[j]
}

/// No value in `l` is larger than one before it.
pub open spec fn descending(l: Seq<nat>) -> bool {
    forall|i: int, j: int| 0 <= i <= j < l.len() ==> l[i] >= l[j]
}

/// The values in `l` stand in order, one way or the other.
pub open spec fn ordered(l: Seq<nat>) -> bool {
    ascending(l) || descending(l)
}

/// One for a line in order, zero for another.
pub open spec fn order_mark(l: Seq<nat>) -> nat {
    if ordered(l) {
        1
    } else {
        0
    }
}

/// How many of the four edges of the board are in order: the top and bottom
/// rows, the left and right columns.
pub open spec fn ordered_edges(cells: Seq<nat>) -> nat {
    order_mark(line_of(cells, Swipe::Left, 0)) + order_mark(line_of(cells, Swipe::Left, 3))
        + order_mark(line_of(cells, Swipe::Up, 0)) + order_mark(line_of(cells, Swipe::Up, 3))
}

/// The largest tile stands in a corner.
pub open spec fn top_in_corner(cells: Seq<nat>) -> bool {
    let top = largest(cells);
    top != 0 && (cells[0] == top || cells[3] == top || cells[12] == top || cells[15] == top)
}

/// The score of a board: more for each empty cell, for each edge in order,
/// for a larger largest tile, and for that tile in a corner.
pub open spec fn heuristic(cells: Seq<nat>) -> int {
    EMPTY_WEIGHT * free_count(cells) + ORDER_WEIGHT * ordered_edges(cells) + RANK_WEIGHT * rank(
        largest(cells),
    ) + if top_in_corner(cells) {
        CORNER_BONUS as int
    } else {
        0
    }
}

/// `largest` is an upper bound, and one of the values.
pub proof fn lemma_largest(s: Seq<nat>)
    ensures
        forall|k: int| 0 <= k < s.len() ==> s[k] <= largest(s),
        s.len() > 0 ==> exists|k: int| 0 <= k < s.len() && s[k] == largest(s),
    decreases s.len(),
{
    if s.len() > 0 {
        let rest = s.drop_first();
        lemma_largest(rest);
        assert forall|k: int| 0 <= k < s.len() implies s[k] <= largest(s) by {
            if k > 0 {
                assert(rest[k - 1] == s[k]);
            }
        }
        if s[0] >= largest(rest) {
            assert(s[0] == largest(s));
        } else {
            let k = choose|k: int| 0 <= k < rest.len() && rest[k] == largest(rest);
            assert(s[k + 1] == largest(s));
        }
    }
}

/// A value below two to the power of `k + 1` has a rank of `k` at most.
pub proof fn lemma_rank_bound(v: nat, k: nat)
    requires
        v < two_to(k + 1),
    ensures
        rank(v) <= k,
    decreases k,
{
    reveal_with_fuel(two_to, 2);
    if v >= 2 {
        if k == 0 {
            assert(two_to(1) == 2);
        } else {
            lemma_rank_bound(v / 2, (k - 1) as nat);
        }
    }
}

/// The rank of a value.
pub fn tile_rank(v: u32) -> (r: u8)
    ensures
        r == rank(v as nat),
        r <= 31,
{
    proof {
        assert(two_to(32) == 0x1_0000_0000) by {
            reveal_with_fuel(two_to, 33);
        }
        lemma_rank_bound(v as nat, 31);
    }
    let mut x: u32 = v;
    let mut r: u8 = 0;
    while x >= 2
        invariant
            r + rank(x as nat) == rank(v as nat),
            rank(v as nat) <= 31,
        decreases x,
    {
        x = x / 2;
        r = r + 1;
    }
    r
}

/// The four values as a line.
pub open spec fn line4(a: u32, b: u32, c: u32, d: u32) -> Seq<nat> {
    seq![a as nat, b as nat, c as nat, d as nat]
}

fn in_order(a: u32, b: u32, c: u32, d: u32) -> (yes: bool)
    ensures
        yes == ordered(line4(a, b, c, d)),
{
    let up = a <= b && b <= c && c <= d;
    let down = a >= b && b >= c && c >= d;
    proof {
        let l = line4(a, b, c, d);
        assert(l[0] == a && l[1] == b && l[2] == c && l[3] == d);
        if ascending(l) {
            assert(l[0] <= l[1] && l[1] <= l[2] && l[2] <= l[3]);
        }
        if descending(l) {
            assert(l[0] >= l[1] && l[1] >= l[2] && l[2] >= l[3]);
        }
    }
    up || down
}

/// The evaluator that the search is given. It has no state: it scores a
/// position by `evaluate` on its board.
#[derive(Clone, Copy, Debug)]
pub struct TwentyFortyEightEvaluator;

/// The score of a board, for the player: never below zero, never above
/// `MAX_SCORE`.
pub fn evaluate(board: &Board) -> (score: i16)
    ensures
        score == heuristic(board@),
        0 <= score <= MAX_SCORE,
{
    proof {
        use_type_invariant(board);
        lemma_largest(board@);
        lemma_tiles_shape(board@);
    }
    let rows = board.cells();
    let free = board.free_count();
    let top = board.max_tile();
    let mut in_line: i16 = 0;
    proof {
        let cells = board@;
        assert(line_of(cells, Swipe::Left, 0) =~= line4(
            rows[0][0],
            rows[0][1],
            rows[0][2],
            rows[0][3],
        ));
        assert(line_of(cells, Swipe::Left, 3) =~= line4(
            rows[3][0],
            rows[3][1],
            rows[3][2],
            rows[3][3],
        ));
        assert(line_of(cells, Swipe::Up, 0) =~= line4(
            rows[0][0],
            rows[1][0],
            rows[2][0],
            rows[3][0],
        ));
        assert(line_of(cells, Swipe::Up, 3) =~= line4(
            rows[0][3],
            rows[1][3],
            rows[2][3],
            rows[3][3],
        ));
    }
    if in_order(rows[0][0], rows[0][1], rows[0][2], rows[0][3]) {
        in_line += 1;
    }
    if in_order(rows[3][0], rows[3][1], rows[3][2], rows[3][3]) {
        in_line += 1;
    }
    if in_order(rows[0][0], rows[1][0], rows[2][0], rows[3][0]) {
        in_line += 1;
    }
    if in_order(rows[0][3], rows[1][3], rows[2][3], rows[3][3]) {
        in_line += 1;
    }
    assert(in_line == ordered_edges(board@));
    let corner = top != 0 && (rows[0][0] == top || rows[0][3] == top || rows[3][0] == top
        || rows[3][3] == top);
    assert(corner == top_in_corner(board@)) by {
        assert(board@[0] == rows[0][0] && board@[3] == rows[0][3] && board@[12] == rows[3][0]
            && board@[15] == rows[3][3]);
    }
    let bonus: i16 = if corner {
        CORNER_BONUS
    } else {
        0
    };
    EMPTY_WEIGHT * (free as i16) + ORDER_WEIGHT * in_line + RANK_WEIGHT * (tile_rank(top) as i16)
        + bonus
}

} // verus!
