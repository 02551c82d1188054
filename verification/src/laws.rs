//! What holds of every board and every swipe.

use crate::board::{
    blank, cell_index, lemma_line_of_swiped, lemma_lines_determine, lemma_swipe_conserves,
    lemma_total_by_lines, line_of, moves_board, stuck, swipe_gain, swipe_merges, swiped, valid,
    Swipe,
};
use crate::line::{
    gapless, lemma_merge_shape, lemma_slide_fixed, lemma_slide_shape, lemma_tiles_shape, merge,
    no_equal_neighbours, pad, tiles, total,
};
use vstd::prelude::*;

verus! {

/// A line that a swipe leaves alone: its tiles are packed at the front, and no
/// two neighbours among them are equal.
pub open spec fn settled(line: Seq<nat>) -> bool {
    line == pad(tiles(line), line.len()) && no_equal_neighbours(tiles(line))
}

/// The tile in row `r` and column `c`.
pub open spec fn tile_at(cells: Seq<nat>, r: int, c: int) -> nat {
    cells[4 * r + c]
}

/// No tile has an equal tile beside it or below it.
pub open spec fn no_equal_pair(cells: Seq<nat>) -> bool {
    forall|r: int, c: int|
        0 <= r < 4 && 0 <= c < 4 ==> (c < 3 ==> #[trigger] tile_at(cells, r, c) != tile_at(
            cells,
            r,
            c + 1,
        )) && (r < 3 ==> tile_at(cells, r, c) != tile_at(cells, r + 1, c))
}

/// One for each tile, zero for each empty cell.
pub open spec fn marks(cells: Seq<nat>) -> Seq<nat> {
    Seq::new(cells.len(), |i: int| if cells[i] != 0 { 1nat } else { 0nat })
}

proof fn lemma_count_by_marks(cells: Seq<nat>)
    ensures
        tiles(cells).len() == total(marks(cells)),
    decreases cells.len(),
{
    if cells.len() > 0 {
        lemma_count_by_marks(cells.drop_first());
        assert(marks(cells).drop_first() =~= marks(cells.drop_first()));
    }
}

/// The tiles of a board are the tiles of its four lines, in any direction.
pub proof fn lemma_count_by_lines(cells: Seq<nat>, d: Swipe)
    requires
        cells.len() == 16,
    ensures
        tiles(cells).len() == tiles(line_of(cells, d, 0)).len() + tiles(
            line_of(cells, d, 1),
        ).len() + tiles(line_of(cells, d, 2)).len() + tiles(line_of(cells, d, 3)).len(),
{
    lemma_count_by_marks(cells);
    lemma_total_by_lines(marks(cells), d);
    assert forall|line: int| 0 <= line < 4 implies total(
        #[trigger] line_of(marks(cells), d, line),
    ) == tiles(line_of(cells, d, line)).len() by {
        lemma_count_by_marks(line_of(cells, d, line));
        assert(line_of(marks(cells), d, line) =~= marks(line_of(cells, d, line)));
    }
    assert(total(line_of(marks(cells), d, 0)) == tiles(line_of(cells, d, 0)).len());
    assert(total(line_of(marks(cells), d, 1)) == tiles(line_of(cells, d, 1)).len());
    assert(total(line_of(marks(cells), d, 2)) == tiles(line_of(cells, d, 2)).len());
    assert(total(line_of(marks(cells), d, 3)) == tiles(line_of(cells, d, 3)).len());
}

/// A swipe neither makes nor loses value: the sum of the tiles stays as it was.
/// Each merge puts one tile in the place of two, and what the merges make is
/// part of that sum.
pub proof fn lemma_swipe_accounting(cells: Seq<nat>, d: Swipe)
    requires
        valid(cells),
    ensures
        valid(swiped(cells, d)),
        total(swiped(cells, d)) == total(cells),
        tiles(swiped(cells, d)).len() + swipe_merges(cells, d) == tiles(cells).len(),
        swipe_gain(cells, d) <= total(cells),
        swipe_gain(cells, d) == 0 <==> swipe_merges(cells, d) == 0,
{
    let next = swiped(cells, d);
    lemma_swipe_conserves(cells, d);
    lemma_count_by_lines(cells, d);
    lemma_count_by_lines(next, d);
    lemma_total_by_lines(cells, d);
    lemma_line_facts(cells, d, 0);
    lemma_line_facts(cells, d, 1);
    lemma_line_facts(cells, d, 2);
    lemma_line_facts(cells, d, 3);
}

proof fn lemma_line_facts(cells: Seq<nat>, d: Swipe, line: int)
    requires
        valid(cells),
        0 <= line < 4,
    ensures
        tiles(line_of(swiped(cells, d), d, line)).len() + crate::line::merges(
            tiles(line_of(cells, d, line)),
        ) == tiles(line_of(cells, d, line)).len(),
        crate::line::gain(tiles(line_of(cells, d, line))) <= total(line_of(cells, d, line)),
        crate::line::gain(tiles(line_of(cells, d, line))) == 0 <==> crate::line::merges(
            tiles(line_of(cells, d, line)),
        ) == 0,
{
    let l = line_of(cells, d, line);
    lemma_line_of_swiped(cells, d, line);
    lemma_slide_shape(l);
    lemma_tiles_shape(l);
    lemma_merge_shape(tiles(l));
    lemma_gain_and_merges(tiles(l));
}

proof fn lemma_gain_and_merges(t: Seq<nat>)
    requires
        gapless(t),
    ensures
        crate::line::gain(t) == 0 <==> crate::line::merges(t) == 0,
    decreases t.len(),
{
    if t.len() >= 2 {
        if t[0] == t[1] {
            assert(t[0] != 0);
        } else {
            assert(gapless(t.drop_first()));
            lemma_gain_and_merges(t.drop_first());
        }
    }
}

/// Where a swipe moves tiles and merges none, the sum of the tiles after it is
/// the sum before it and what the merges made. (Where it merges, the sum is
/// the sum before it: see `lemma_swipe_accounting`.)
pub proof fn lemma_swipe_without_merge(cells: Seq<nat>, d: Swipe)
    requires
        valid(cells),
        moves_board(cells, d),
        swipe_merges(cells, d) == 0,
    ensures
        total(swiped(cells, d)) == total(cells) + swipe_gain(cells, d),
{
    lemma_swipe_accounting(cells, d);
}

/// A swipe leaves the board as it is exactly when every line in its direction
/// is settled.
pub proof fn lemma_swipe_fixed(cells: Seq<nat>, d: Swipe)
    requires
        cells.len() == 16,
    ensures
        !moves_board(cells, d) <==> forall|line: int|
            0 <= line < 4 ==> settled(#[trigger] line_of(cells, d, line)),
{
    if !moves_board(cells, d) {
        assert forall|line: int| 0 <= line < 4 implies settled(
            #[trigger] line_of(cells, d, line),
        ) by {
            lemma_line_of_swiped(cells, d, line);
            lemma_slide_fixed(line_of(cells, d, line));
        }
    }
    if forall|line: int| 0 <= line < 4 ==> settled(#[trigger] line_of(cells, d, line)) {
        assert forall|line: int| 0 <= line < 4 implies #[trigger] line_of(swiped(cells, d), d, line)
            == line_of(cells, d, line) by {
            assert(settled(line_of(cells, d, line)));
            lemma_line_of_swiped(cells, d, line);
            lemma_slide_fixed(line_of(cells, d, line));
        }
        lemma_lines_determine(swiped(cells, d), cells, d);
    }
}

/// The same swipe a second time, with no new tile in between, changes the
/// board exactly when the first one left two equal tiles next to each other in
/// a line of its direction. So it changes nothing where the first swipe left
/// no such pair.
pub proof fn lemma_swipe_twice(cells: Seq<nat>, d: Swipe)
    requires
        cells.len() == 16,
    ensures
        !moves_board(swiped(cells, d), d) <==> forall|line: int|
            0 <= line < 4 ==> no_equal_neighbours(
                tiles(#[trigger] line_of(swiped(cells, d), d, line)),
            ),
{
    let once = swiped(cells, d);
    lemma_swipe_fixed(once, d);
    assert forall|line: int| 0 <= line < 4 implies (#[trigger] line_of(once, d, line)) == pad(
        tiles(line_of(once, d, line)),
        4,
    ) by {
        lemma_line_of_swiped(cells, d, line);
        lemma_slide_shape(line_of(cells, d, line));
    }
    if !moves_board(once, d) {
        assert forall|line: int| 0 <= line < 4 implies no_equal_neighbours(
            tiles(#[trigger] line_of(once, d, line)),
        ) by {
            assert(settled(line_of(once, d, line)));
        }
    }
    if forall|line: int|
        0 <= line < 4 ==> no_equal_neighbours(tiles(#[trigger] line_of(once, d, line))) {
        assert forall|line: int| 0 <= line < 4 implies settled(
            #[trigger] line_of(once, d, line),
        ) by {
            assert(no_equal_neighbours(tiles(line_of(once, d, line))));
        }
    }
}

/// A swipe changes nothing where every line in its direction is full and has
/// no two equal neighbours.
pub proof fn lemma_blocked_swipe(cells: Seq<nat>, d: Swipe)
    requires
        cells.len() == 16,
        forall|line: int|
            0 <= line < 4 ==> gapless(#[trigger] line_of(cells, d, line)) && no_equal_neighbours(
                line_of(cells, d, line),
            ),
    ensures
        swiped(cells, d) == cells,
{
    lemma_swipe_fixed(cells, d);
    assert forall|line: int| 0 <= line < 4 implies settled(#[trigger] line_of(cells, d, line)) by {
        let l = line_of(cells, d, line);
        assert(gapless(l) && no_equal_neighbours(l));
        lemma_tiles_shape(l);
        assert(pad(l, 4) =~= l);
    }
}

/// On a full board on which no tile has an equal neighbour, no swipe changes
/// anything: the player has no move.
pub proof fn lemma_full_board_without_pair_is_stuck(cells: Seq<nat>)
    requires
        cells.len() == 16,
        gapless(cells),
        no_equal_pair(cells),
    ensures
        stuck(cells),
{
    assert forall|d: Swipe| !moves_board(cells, d) by {
        assert forall|line: int| 0 <= line < 4 implies gapless(#[trigger] line_of(cells, d, line))
            && no_equal_neighbours(line_of(cells, d, line)) by {
            let l = line_of(cells, d, line);
            assert forall|i: int| 0 <= i < l.len() - 1 implies l[i] != #[trigger] l[i + 1] by {
                match d {
                    Swipe::Left => {
                        assert(tile_at(cells, line, i) != tile_at(cells, line, i + 1));
                    },
                    Swipe::Right => {
                        assert(tile_at(cells, line, 2 - i) != tile_at(cells, line, 2 - i + 1));
                    },
                    Swipe::Up => {
                        assert(tile_at(cells, i, line) != tile_at(cells, i + 1, line));
                    },
                    Swipe::Down => {
                        assert(tile_at(cells, 2 - i, line) != tile_at(cells, 2 - i + 1, line));
                    },
                }
            }
        }
        lemma_blocked_swipe(cells, d);
    }
}

/// In a settled line the tiles stand before the empty cells, and no two of
/// them that touch are equal.
proof fn lemma_settled_line(l: Seq<nat>)
    requires
        l.len() == 4,
        settled(l),
    ensures
        l[0] == 0 ==> forall|i: int| 0 <= i < 4 ==> l[i] == 0,
        l[3] != 0 ==> gapless(l) && no_equal_neighbours(l),
{
    let t = tiles(l);
    lemma_tiles_shape(l);
    if l[0] == 0 {
        if t.len() > 0 {
            assert(pad(t, 4)[0] == t[0]);
        }
        assert forall|i: int| 0 <= i < 4 implies l[i] == 0 by {
            assert(pad(t, 4)[i] == 0);
        }
    }
    if l[3] != 0 {
        assert(pad(t, 4)[3] != 0);
        assert(t.len() == 4);
    }
}

/// A row with a tile in it is full, where neither a swipe to the left nor one
/// to the right moves it.
proof fn lemma_row_full(cells: Seq<nat>, r: int, c: int)
    requires
        cells.len() == 16,
        0 <= r < 4,
        0 <= c < 4,
        settled(line_of(cells, Swipe::Left, r)),
        settled(line_of(cells, Swipe::Right, r)),
        tile_at(cells, r, c) != 0,
    ensures
        forall|j: int| 0 <= j < 4 ==> #[trigger] tile_at(cells, r, j) != 0,
        forall|j: int| 0 <= j < 3 ==> #[trigger] tile_at(cells, r, j) != tile_at(cells, r, j + 1),
{
    let row = line_of(cells, Swipe::Left, r);
    let back = line_of(cells, Swipe::Right, r);
    lemma_settled_line(row);
    lemma_settled_line(back);
    assert(back[3 - c] == tile_at(cells, r, c));
    assert(row[3] == back[0]);
    assert forall|j: int| 0 <= j < 4 implies #[trigger] tile_at(cells, r, j) != 0 by {
        assert(row[j] == tile_at(cells, r, j));
    }
    assert forall|j: int| 0 <= j < 3 implies #[trigger] tile_at(cells, r, j) != tile_at(
        cells,
        r,
        j + 1,
    ) by {
        assert(row[j] != row[j + 1]);
    }
}

/// A column with a tile in it is full, where neither a swipe up nor one down
/// moves it.
proof fn lemma_column_full(cells: Seq<nat>, r: int, c: int)
    requires
        cells.len() == 16,
        0 <= r < 4,
        0 <= c < 4,
        settled(line_of(cells, Swipe::Up, c)),
        settled(line_of(cells, Swipe::Down, c)),
        tile_at(cells, r, c) != 0,
    ensures
        forall|i: int| 0 <= i < 4 ==> #[trigger] tile_at(cells, i, c) != 0,
        forall|i: int| 0 <= i < 3 ==> #[trigger] tile_at(cells, i, c) != tile_at(cells, i + 1, c),
{
    let column = line_of(cells, Swipe::Up, c);
    let back = line_of(cells, Swipe::Down, c);
    lemma_settled_line(column);
    lemma_settled_line(back);
    assert(back[3 - r] == tile_at(cells, r, c));
    assert(column[3] == back[0]);
    assert forall|i: int| 0 <= i < 4 implies #[trigger] tile_at(cells, i, c) != 0 by {
        assert(column[i] == tile_at(cells, i, c));
    }
    assert forall|i: int| 0 <= i < 3 implies #[trigger] tile_at(cells, i, c) != tile_at(
        cells,
        i + 1,
        c,
    ) by {
        assert(column[i] != column[i + 1]);
    }
}

/// On a board that no swipe changes, every line is settled in every direction.
proof fn lemma_stuck_lines(cells: Seq<nat>, d: Swipe, line: int)
    requires
        cells.len() == 16,
        stuck(cells),
        0 <= line < 4,
    ensures
        settled(line_of(cells, d, line)),
{
    assert(!moves_board(cells, d));
    lemma_swipe_fixed(cells, d);
}

/// Where no swipe changes a board that has a tile on it, the board is full
/// and no tile has an equal neighbour. With
/// `lemma_full_board_without_pair_is_stuck`: the player has no move exactly on
/// such a board, and on the board without a tile.
pub proof fn lemma_stuck_board_is_full(cells: Seq<nat>)
    requires
        cells.len() == 16,
        stuck(cells),
        cells != blank(),
    ensures
        gapless(cells),
        no_equal_pair(cells),
{
    if forall|k: int| 0 <= k < 16 ==> cells[k] == 0 {
        assert(cells =~= blank());
    }
    let k0 = choose|k: int| 0 <= k < 16 && cells[k] != 0;
    let r0 = k0 / 4;
    let c0 = k0 % 4;
    assert(tile_at(cells, r0, c0) == cells[k0]);
    lemma_stuck_lines(cells, Swipe::Left, r0);
    lemma_stuck_lines(cells, Swipe::Right, r0);
    lemma_row_full(cells, r0, c0);
    assert forall|r: int, c: int| 0 <= r < 4 && 0 <= c < 4 implies #[trigger] tile_at(cells, r, c)
        != 0 && (c < 3 ==> tile_at(cells, r, c) != tile_at(cells, r, c + 1)) && (r < 3 ==> tile_at(
        cells,
        r,
        c,
    ) != tile_at(cells, r + 1, c)) by {
        assert(tile_at(cells, r0, c) != 0);
        lemma_stuck_lines(cells, Swipe::Up, c);
        lemma_stuck_lines(cells, Swipe::Down, c);
        lemma_column_full(cells, r0, c);
        assert(tile_at(cells, r, c) != 0);
        lemma_stuck_lines(cells, Swipe::Left, r);
        lemma_stuck_lines(cells, Swipe::Right, r);
        lemma_row_full(cells, r, c);
    }
    assert forall|k: int| 0 <= k < 16 implies cells[k] != 0 by {
        assert(tile_at(cells, k / 4, k % 4) == cells[k]);
    }
}

/// A swipe that changes the board leaves an empty cell behind, so that a new
/// tile can follow it.
pub proof fn lemma_swipe_frees_a_cell(cells: Seq<nat>, d: Swipe)
    requires
        cells.len() == 16,
        moves_board(cells, d),
    ensures
        !gapless(swiped(cells, d)),
{
    let next = swiped(cells, d);
    if gapless(next) {
        assert forall|line: int| 0 <= line < 4 implies #[trigger] line_of(next, d, line)
            == line_of(cells, d, line) by {
            let l = line_of(cells, d, line);
            let after = line_of(next, d, line);
            lemma_line_of_swiped(cells, d, line);
            assert(gapless(after)) by {
                assert forall|i: int| 0 <= i < after.len() implies after[i] != 0 by {
                    assert(after[i] == next[cell_index(d, line, i)]);
                }
            }
            lemma_slide_shape(l);
            lemma_tiles_shape(after);
            lemma_tiles_shape(l);
            lemma_merge_shape(tiles(l));
            assert(merge(tiles(l)) == tiles(l));
            assert(tiles(l) == l);
            assert(after == l);
        }
        lemma_lines_determine(next, cells, d);
    }
}

} // verus!
