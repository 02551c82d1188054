//! The board: a grid of four by four cells, the moves on it, and how a swipe
//! and a new tile change it.

use crate::chance::random_below;
use crate::laws::{
    lemma_full_board_without_pair_is_stuck, lemma_stuck_board_is_full, no_equal_pair,
};
use crate::line::{
    gain, gapless, lemma_merge_shape, lemma_slide_keeps, lemma_slide_shape, lemma_tiles_push,
    lemma_tiles_shape, lemma_total_push, lemma_total_update, merges, nats, slide, slide_line,
    tiles, total,
};
use crate::tile::{all_tiles, is_tile, lemma_double_is_tile, lemma_headroom, MAX_TOTAL};
use vstd::prelude::*;

verus! {

/// A direction in which the player moves all tiles.
#[derive(Clone, Copy, Debug, PartialEq, Eq, Hash, Structural)]
pub enum Swipe {
    Up,
    Down,
    Left,
    Right,
}

/// A new tile: where it appears, and its value.
#[derive(Clone, Copy, Debug, PartialEq, Eq, Hash, Structural)]
pub struct Placement {
    pub row: usize,
    pub col: usize,
    pub value: u32,
}

/// A move of either side: the player swipes, the computer places a tile.
#[derive(Clone, Copy, Debug, PartialEq, Eq, Hash, Structural)]
pub enum Moves {
    Player(Swipe),
    Computer(Placement),
}

/// The index of the cell that stands at `pos` in line `line`, counted from the
/// edge that a swipe in direction `d` moves the tiles to. Cells are numbered
/// row by row.
pub open spec fn cell_index(d: Swipe, line: int, pos: int) -> int {
    match d {
        Swipe::Left => 4 * line + pos,
        Swipe::Right => 4 * line + (3 - pos),
        Swipe::Up => 4 * pos + line,
        Swipe::Down => 4 * (3 - pos) + line,
    }
}

/// The line that cell `k` belongs to for a swipe in direction `d`.
pub open spec fn line_number(d: Swipe, k: int) -> int {
    match d {
        Swipe::Left | Swipe::Right => k / 4,
        Swipe::Up | Swipe::Down => k % 4,
    }
}

/// The place of cell `k` in its line, counted from the edge that a swipe in
/// direction `d` moves the tiles to.
pub open spec fn line_position(d: Swipe, k: int) -> int {
    match d {
        Swipe::Left => k % 4,
        Swipe::Right => 3 - k % 4,
        Swipe::Up => k / 4,
        Swipe::Down => 3 - k / 4,
    }
}

/// Line `line` of the board, read from the edge that a swipe in direction `d`
/// moves the tiles to.
pub open spec fn line_of(cells: Seq<nat>, d: Swipe, line: int) -> Seq<nat> {
    Seq::new(4, |pos: int| cells[cell_index(d, line, pos)])
}

/// The board after a swipe in direction `d`: each of its four lines slides and
/// merges on its own.
pub open spec fn swiped(cells: Seq<nat>, d: Swipe) -> Seq<nat> {
    Seq::new(16, |k: int| slide(line_of(cells, d, line_number(d, k)))[line_position(d, k)])
}

/// The sum of the tiles that a swipe in direction `d` creates by merging.
pub open spec fn swipe_gain(cells: Seq<nat>, d: Swipe) -> nat {
    gain(tiles(line_of(cells, d, 0))) + gain(tiles(line_of(cells, d, 1))) + gain(
        tiles(line_of(cells, d, 2)),
    ) + gain(tiles(line_of(cells, d, 3)))
}

/// The number of merges in a swipe in direction `d`.
pub open spec fn swipe_merges(cells: Seq<nat>, d: Swipe) -> nat {
    merges(tiles(line_of(cells, d, 0))) + merges(tiles(line_of(cells, d, 1))) + merges(
        tiles(line_of(cells, d, 2)),
    ) + merges(tiles(line_of(cells, d, 3)))
}

/// What every board is: sixteen cells, each empty or a power of two from 2
/// up, whose sum fits in 32 bits.
pub open spec fn valid(cells: Seq<nat>) -> bool {
    &&& cells.len() == 16
    &&& all_tiles(cells)
    &&& total(cells) <= MAX_TOTAL
}

/// The board without a tile.
pub open spec fn blank() -> Seq<nat> {
    Seq::new(16, |k: int| 0nat)
}

/// The sixteen cells of a grid given row by row.
pub open spec fn grid(rows: [[u32; 4]; 4]) -> Seq<nat> {
    Seq::new(16, |k: int| rows[k / 4][k % 4] as nat)
}

/// The number of empty cells.
pub open spec fn free_count(cells: Seq<nat>) -> nat {
    (cells.len() - tiles(cells).len()) as nat
}

/// Whether a swipe in direction `d` changes the board.
pub open spec fn moves_board(cells: Seq<nat>, d: Swipe) -> bool {
    swiped(cells, d) != cells
}

/// No swipe changes the board.
pub open spec fn stuck(cells: Seq<nat>) -> bool {
    forall|d: Swipe| !moves_board(cells, d)
}

/// The swipes that change the board, in the order up, down, left, right.
pub open spec fn legal_swipes_of(cells: Seq<nat>) -> Seq<Swipe> {
    swipe_if_legal(cells, Swipe::Up) + swipe_if_legal(cells, Swipe::Down) + swipe_if_legal(
        cells,
        Swipe::Left,
    ) + swipe_if_legal(cells, Swipe::Right)
}

/// The swipe alone where it changes the board, nothing where it does not.
pub open spec fn swipe_if_legal(cells: Seq<nat>, d: Swipe) -> Seq<Swipe> {
    if moves_board(cells, d) {
        seq![d]
    } else {
        Seq::empty()
    }
}

/// A new tile is a 2 or a 4, and goes into an empty cell of the grid.
pub open spec fn can_place(cells: Seq<nat>, p: Placement) -> bool {
    &&& p.row < 4
    &&& p.col < 4
    &&& (p.value == 2 || p.value == 4)
    &&& cells[4 * p.row + p.col] == 0
}

/// The board with the new tile on it; the same board where the tile cannot
/// be placed.
pub open spec fn placed(cells: Seq<nat>, p: Placement) -> Seq<nat> {
    if can_place(cells, p) {
        cells.update(4 * p.row + p.col, p.value as nat)
    } else {
        cells
    }
}

/// The value of a new tile for a draw below `FOUR_ODDS`: a 4 for the draw `0`,
/// a 2 for every other.
pub open spec fn drawn_tile(draw: u32) -> u32 {
    if draw == 0 {
        4
    } else {
        2
    }
}

/// The board after a move of either side.
pub open spec fn applied(cells: Seq<nat>, m: Moves) -> Seq<nat> {
    match m {
        Moves::Player(d) => swiped(cells, d),
        Moves::Computer(p) => placed(cells, p),
    }
}

/// The two placements into cell `k`.
pub open spec fn placements_at(k: int) -> Seq<Placement> {
    seq![
        Placement { row: (k / 4) as usize, col: (k % 4) as usize, value: 2 },
        Placement { row: (k / 4) as usize, col: (k % 4) as usize, value: 4 },
    ]
}

/// The placements into the empty cells among the first `n` cells: cell by
/// cell, and for each cell the 2 before the 4.
pub open spec fn placements_of(cells: Seq<nat>, n: nat) -> Seq<Placement>
    decreases n,
{
    if n == 0 {
        Seq::empty()
    } else if cells[n - 1] == 0 {
        placements_of(cells, (n - 1) as nat) + placements_at(n - 1)
    } else {
        placements_of(cells, (n - 1) as nat)
    }
}

/// A new tile on an empty cell leaves a board a board, with one tile more.
pub proof fn lemma_place_valid(cells: Seq<nat>, k: int, v: nat)
    requires
        valid(cells),
        0 <= k < 16,
        cells[k] == 0,
        v == 2 || v == 4,
    ensures
        valid(cells.update(k, v)),
        total(cells.update(k, v)) == total(cells) + v,
        tiles(cells.update(k, v)).len() == tiles(cells).len() + 1,
{
    let next = cells.update(k, v);
    lemma_total_update(cells, k, v);
    lemma_headroom(cells, k);
    assert(is_tile(2));
    assert(is_tile(4)) by {
        reveal_with_fuel(is_tile, 2);
    }
    assert forall|i: int| 0 <= i < 16 implies next[i] == 0 || is_tile(#[trigger] next[i]) by {
        if i != k {
            assert(next[i] == cells[i]);
        }
    }
    lemma_tiles_update(cells, k, v);
}

/// Filling an empty cell adds one tile.
pub proof fn lemma_tiles_update(cells: Seq<nat>, k: int, v: nat)
    requires
        0 <= k < cells.len(),
        cells[k] == 0,
        v != 0,
    ensures
        tiles(cells.update(k, v)).len() == tiles(cells).len() + 1,
    decreases cells.len(),
{
    if k == 0 {
        assert(cells.update(k, v).drop_first() =~= cells.drop_first());
    } else {
        lemma_tiles_update(cells.drop_first(), k - 1, v);
        assert(cells.update(k, v).drop_first() =~= cells.drop_first().update(k - 1, v));
    }
}

/// The sum of a board is the sum of its four lines, in any direction.
pub proof fn lemma_total_by_lines(cells: Seq<nat>, d: Swipe)
    requires
        cells.len() == 16,
    ensures
        total(cells) == total(line_of(cells, d, 0)) + total(line_of(cells, d, 1)) + total(
            line_of(cells, d, 2),
        ) + total(line_of(cells, d, 3)),
{
    lemma_total_sixteen(cells);
    lemma_total_four(line_of(cells, d, 0));
    lemma_total_four(line_of(cells, d, 1));
    lemma_total_four(line_of(cells, d, 2));
    lemma_total_four(line_of(cells, d, 3));
}

proof fn lemma_total_four(s: Seq<nat>)
    requires
        s.len() == 4,
    ensures
        total(s) == s[0] + s[1] + s[2] + s[3],
{
    let a = s.drop_first();
    let b = a.drop_first();
    let c = b.drop_first();
    assert(total(c.drop_first()) == 0);
    assert(total(c) == c[0]);
    assert(total(b) == b[0] + total(c));
    assert(total(a) == a[0] + total(b));
}

proof fn lemma_total_sixteen(s: Seq<nat>)
    requires
        s.len() == 16,
    ensures
        total(s) == s[0] + s[1] + s[2] + s[3] + s[4] + s[5] + s[6] + s[7] + s[8] + s[9] + s[10]
            + s[11] + s[12] + s[13] + s[14] + s[15],
{
    let q0 = s.take(4);
    let q1 = s.skip(4).take(4);
    let q2 = s.skip(8).take(4);
    let q3 = s.skip(12);
    lemma_total_concat(q0, s.skip(4));
    lemma_total_concat(q1, s.skip(8));
    lemma_total_concat(q2, q3);
    assert(q0 + s.skip(4) =~= s);
    assert(q1 + s.skip(8) =~= s.skip(4));
    assert(q2 + q3 =~= s.skip(8));
    lemma_total_four(q0);
    lemma_total_four(q1);
    lemma_total_four(q2);
    lemma_total_four(q3);
}

/// The sum of two lines put together is the sum of their sums.
pub proof fn lemma_total_concat(a: Seq<nat>, b: Seq<nat>)
    ensures
        total(a + b) == total(a) + total(b),
    decreases a.len(),
{
    if a.len() == 0 {
        assert(a + b =~= b);
    } else {
        lemma_total_concat(a.drop_first(), b);
        assert((a + b).drop_first() =~= a.drop_first() + b);
    }
}

/// A swipe turns each line into its slid form.
pub proof fn lemma_line_of_swiped(cells: Seq<nat>, d: Swipe, line: int)
    requires
        0 <= line < 4,
    ensures
        line_of(swiped(cells, d), d, line) == slide(line_of(cells, d, line)),
{
    lemma_slide_shape(line_of(cells, d, line));
    assert(line_of(swiped(cells, d), d, line) =~= slide(line_of(cells, d, line)));
}

/// Two boards with the same lines in one direction are the same board.
pub proof fn lemma_lines_determine(a: Seq<nat>, b: Seq<nat>, d: Swipe)
    requires
        a.len() == 16,
        b.len() == 16,
        forall|line: int| 0 <= line < 4 ==> #[trigger] line_of(a, d, line) == line_of(b, d, line),
    ensures
        a == b,
{
    assert forall|k: int| 0 <= k < 16 implies a[k] == b[k] by {
        let line = line_number(d, k);
        let pos = line_position(d, k);
        assert(line_of(a, d, line) == line_of(b, d, line));
        assert(line_of(a, d, line)[pos] == a[k]);
        assert(line_of(b, d, line)[pos] == b[k]);
    }
    assert(a =~= b);
}

/// A swipe keeps a board a board, and keeps the sum of its tiles: merging two
/// tiles of one value leaves one tile of twice that value.
pub proof fn lemma_swipe_conserves(cells: Seq<nat>, d: Swipe)
    requires
        valid(cells),
    ensures
        valid(swiped(cells, d)),
        total(swiped(cells, d)) == total(cells),
{
    let next = swiped(cells, d);
    lemma_total_by_lines(cells, d);
    lemma_total_by_lines(next, d);
    let ok = |v: nat| is_tile(v);
    assert forall|v: nat| ok(v) implies #[trigger] ok(v + v) by {
        lemma_double_is_tile(v);
    }
    assert forall|line: int| 0 <= line < 4 implies total(#[trigger] line_of(next, d, line))
        == total(line_of(cells, d, line)) && (forall|i: int|
        0 <= i < 4 ==> slide(line_of(cells, d, line))[i] == 0 || is_tile(
            #[trigger] slide(line_of(cells, d, line))[i],
        )) by {
        let l = line_of(cells, d, line);
        lemma_line_of_swiped(cells, d, line);
        lemma_slide_shape(l);
        assert forall|i: int| 0 <= i < l.len() implies l[i] == 0 || ok(#[trigger] l[i]) by {
            assert(l[i] == cells[cell_index(d, line, i)]);
        }
        lemma_slide_keeps(l, ok);
    }
    assert(total(line_of(next, d, 0)) == total(line_of(cells, d, 0)));
    assert(total(line_of(next, d, 1)) == total(line_of(cells, d, 1)));
    assert(total(line_of(next, d, 2)) == total(line_of(cells, d, 2)));
    assert(total(line_of(next, d, 3)) == total(line_of(cells, d, 3)));
    assert forall|k: int| 0 <= k < 16 implies next[k] == 0 || is_tile(#[trigger] next[k]) by {
        let line = line_number(d, k);
        let pos = line_position(d, k);
        assert(line_of(next, d, line) == line_of(next, d, line));
        assert(slide(line_of(cells, d, line))[pos] == 0 || is_tile(
            slide(line_of(cells, d, line))[pos],
        ));
    }
}

/// The board: sixteen cells, row by row; `0` is an empty cell.
#[derive(Clone, Copy, Debug, PartialEq, Eq, Hash)]
pub struct Board {
    cells: [u32; 16],
}

impl View for Board {
    type V = Seq<nat>;

    closed spec fn view(&self) -> Seq<nat> {
        nats(self.cells@)
    }
}

fn index_of(d: Swipe, line: usize, pos: usize) -> (k: usize)
    requires
        line < 4,
        pos < 4,
    ensures
        k == cell_index(d, line as int, pos as int),
        k < 16,
{
    match d {
        Swipe::Left => 4 * line + pos,
        Swipe::Right => 4 * line + (3 - pos),
        Swipe::Up => 4 * pos + line,
        Swipe::Down => 4 * (3 - pos) + line,
    }
}

fn same_cells(a: &[u32; 16], b: &[u32; 16]) -> (same: bool)
    ensures
        same == (nats(a@) == nats(b@)),
{
    let mut i: usize = 0;
    while i < 16
        invariant
            i <= 16,
            forall|j: int| 0 <= j < i ==> a[j] == b[j],
        decreases 16 - i,
    {
        if a[i] != b[i] {
            assert(nats(a@)[i as int] != nats(b@)[i as int]);
            return false;
        }
        i += 1;
    }
    assert(nats(a@) =~= nats(b@));
    true
}

/// The value of a new tile for a draw below `FOUR_ODDS`.
pub fn tile_for(draw: u32) -> (value: u32)
    ensures
        value == drawn_tile(draw),
{
    if draw == 0 {
        4
    } else {
        2
    }
}

/// Whether `v` may stand in a cell as a tile.
pub fn is_tile_value(v: u32) -> (ok: bool)
    ensures
        ok == is_tile(v as nat),
{
    let mut x: u32 = v;
    while x > 2 && x % 2 == 0
        invariant
            is_tile(x as nat) == is_tile(v as nat),
        decreases x,
    {
        x = x / 2;
    }
    x == 2
}

impl Board {
    /// Every board is valid; all operations keep it so.
    #[verifier::type_invariant]
    pub open spec fn wf(self) -> bool {
        valid(self@)
    }

    /// The empty board.
    pub fn new() -> (board: Board)
        ensures
            board@ == blank(),
            valid(board@),
    {
        let cells = [0u32; 16];
        proof {
            assert(nats(cells@) =~= blank());
            lemma_total_zero(nats(cells@));
        }
        Board { cells }
    }

    /// The cells of this board, row by row.
    pub fn cells(&self) -> (rows: [[u32; 4]; 4])
        ensures
            grid(rows) == self@,
    {
        let c = &self.cells;
        let rows = [
            [c[0], c[1], c[2], c[3]],
            [c[4], c[5], c[6], c[7]],
            [c[8], c[9], c[10], c[11]],
            [c[12], c[13], c[14], c[15]],
        ];
        assert(grid(rows) =~= self@);
        rows
    }

    /// The board with the given cells, row by row, if that is a board: each
    /// cell empty (`0`) or a power of two from 2 up, and their sum within 32
    /// bits.
    pub fn from_cells(rows: [[u32; 4]; 4]) -> (board: Option<Board>)
        ensures
            board is Some <==> valid(grid(rows)),
            board matches Some(b) ==> b@ == grid(rows),
    {
        let ghost want = grid(rows);
        let mut cells = [0u32; 16];
        let mut sum: u64 = 0;
        let mut k: usize = 0;
        assert(want.take(0) =~= Seq::<nat>::empty());
        while k < 16
            invariant
                k <= 16,
                want == grid(rows),
                forall|j: int| 0 <= j < k ==> cells[j] as nat == want[j],
                forall|j: int| 0 <= j < k ==> want[j] == 0 || is_tile(#[trigger] want[j]),
                sum == total(want.take(k as int)),
                sum <= k * 0xffff_ffff,
            decreases 16 - k,
        {
            let v = rows[k / 4][k % 4];
            assert(v as nat == want[k as int]);
            if v != 0 && !is_tile_value(v) {
                return None;
            }
            cells[k] = v;
            proof {
                lemma_total_push(want.take(k as int), v as nat);
                assert(want.take(k as int + 1) =~= want.take(k as int).push(v as nat));
            }
            sum = sum + v as u64;
            k += 1;
        }
        proof {
            assert(want.take(16) =~= want);
            assert(nats(cells@) =~= want);
        }
        if sum > MAX_TOTAL as u64 {
            return None;
        }
        Some(Board { cells })
    }

    /// The sum of all tiles.
    pub fn tile_sum(&self) -> (sum: u32)
        ensures
            sum == total(self@),
    {
        proof {
            use_type_invariant(self);
        }
        let mut sum: u32 = 0;
        let mut k: usize = 0;
        assert(self@.take(0) =~= Seq::<nat>::empty());
        assert(self@.skip(0) =~= self@);
        while k < 16
            invariant
                k <= 16,
                valid(self@),
                sum == total(self@.take(k as int)),
                total(self@) == total(self@.take(k as int)) + total(self@.skip(k as int)),
            decreases 16 - k,
        {
            proof {
                lemma_total_push(self@.take(k as int), self@[k as int]);
                assert(self@.take(k as int + 1) =~= self@.take(k as int).push(self@[k as int]));
                assert(self@.skip(k as int).drop_first() =~= self@.skip(k as int + 1));
            }
            sum = sum + self.cells[k];
            k += 1;
        }
        assert(self@.take(16) =~= self@);
        sum
    }

    /// The number of tiles.
    pub fn tile_count(&self) -> (count: usize)
        ensures
            count == tiles(self@).len(),
            count <= 16,
    {
        let mut count: usize = 0;
        let mut k: usize = 0;
        assert(self@.take(0) =~= Seq::<nat>::empty());
        while k < 16
            invariant
                k <= 16,
                self@.len() == 16,
                count == tiles(self@.take(k as int)).len(),
                count <= k,
            decreases 16 - k,
        {
            proof {
                lemma_tiles_push(self@.take(k as int), self@[k as int]);
                assert(self@.take(k as int + 1) =~= self@.take(k as int).push(self@[k as int]));
            }
            if self.cells[k] != 0 {
                count += 1;
            }
            k += 1;
        }
        assert(self@.take(16) =~= self@);
        count
    }

    /// The number of empty cells.
    pub fn free_count(&self) -> (count: usize)
        ensures
            count == free_count(self@),
            count <= 16,
    {
        16 - self.tile_count()
    }

    /// Whether no cell is empty.
    pub fn is_full(&self) -> (full: bool)
        ensures
            full == gapless(self@),
    {
        proof {
            lemma_tiles_shape(self@);
        }
        self.tile_count() == 16
    }

    /// The largest tile; `0` on the empty board.
    pub fn max_tile(&self) -> (top: u32)
        ensures
            forall|k: int| 0 <= k < 16 ==> self@[k] <= top,
            exists|k: int| 0 <= k < 16 && self@[k] == top,
    {
        let mut top: u32 = self.cells[0];
        let ghost mut at: int = 0;
        let mut k: usize = 1;
        while k < 16
            invariant
                1 <= k <= 16,
                0 <= at < 16,
                self@[at] == top,
                forall|j: int| 0 <= j < k ==> self@[j] <= top,
            decreases 16 - k,
        {
            if self.cells[k] > top {
                top = self.cells[k];
                proof {
                    at = k as int;
                }
            }
            k += 1;
        }
        top
    }

    /// Slides one line of this board into `next`, which it leaves as it is
    /// elsewhere. Returns the sum of the tiles that the line merges into being.
    fn slide_into(&self, d: Swipe, line: usize, next: &mut [u32; 16]) -> (won: u32)
        requires
            line < 4,
        ensures
            forall|k: int|
                0 <= k < 16 ==> #[trigger] final(next)[k] as nat == if line_number(d, k) == line {
                    swiped(self@, d)[k]
                } else {
                    old(next)[k] as nat
                },
            won == gain(tiles(line_of(self@, d, line as int))),
            won <= total(line_of(self@, d, line as int)),
    {
        let i0 = index_of(d, line, 0);
        let i1 = index_of(d, line, 1);
        let i2 = index_of(d, line, 2);
        let i3 = index_of(d, line, 3);
        let cur = [self.cells[i0], self.cells[i1], self.cells[i2], self.cells[i3]];
        proof {
            use_type_invariant(self);
            let l = line_of(self@, d, line as int);
            assert(nats(cur@) =~= l);
            lemma_total_by_lines(self@, d);
            lemma_tiles_shape(l);
            lemma_merge_shape(tiles(l));
        }
        let (out, won) = slide_line(cur);
        next[i0] = out[0];
        next[i1] = out[1];
        next[i2] = out[2];
        next[i3] = out[3];
        proof {
            let l = slide(line_of(self@, d, line as int));
            assert(l[0] == out[0] && l[1] == out[1] && l[2] == out[2] && l[3] == out[3]) by {
                assert(nats(out@)[0] == out[0] as nat);
                assert(nats(out@)[1] == out[1] as nat);
                assert(nats(out@)[2] == out[2] as nat);
                assert(nats(out@)[3] == out[3] as nat);
            }
            assert forall|k: int| 0 <= k < 16 implies #[trigger] next[k] as nat == if line_number(
                d,
                k,
            ) == line {
                swiped(self@, d)[k]
            } else {
                old(next)[k] as nat
            } by {
                let p = line_position(d, k);
                if line_number(d, k) == line {
                    assert(cell_index(d, line as int, p) == k);
                    assert(swiped(self@, d)[k] == l[p]);
                    assert(k == i0 || k == i1 || k == i2 || k == i3);
                } else {
                    assert(k != i0 && k != i1 && k != i2 && k != i3);
                }
            }
        }
        won
    }

    /// The cells after a swipe, and the sum of the tiles that it merges into
    /// being.
    fn slid(&self, d: Swipe) -> (r: ([u32; 16], u32))
        ensures
            nats(r.0@) == swiped(self@, d),
            r.1 == swipe_gain(self@, d),
            valid(swiped(self@, d)),
    {
        proof {
            use_type_invariant(self);
            lemma_total_by_lines(self@, d);
            lemma_swipe_conserves(self@, d);
        }
        let mut next = [0u32; 16];
        let a = self.slide_into(d, 0, &mut next);
        let b = self.slide_into(d, 1, &mut next);
        let c = self.slide_into(d, 2, &mut next);
        let e = self.slide_into(d, 3, &mut next);
        proof {
            assert forall|k: int| 0 <= k < 16 implies nats(next@)[k] == swiped(self@, d)[k] by {
                let l = line_number(d, k);
                assert(0 <= l < 4);
            }
            assert(nats(next@) =~= swiped(self@, d));
        }
        (next, a + b + c + e)
    }

    /// Moves all tiles in one direction: they slide to the edge, and equal
    /// neighbours merge into one tile of twice the value, each tile once at
    /// most and those nearest the edge first. Returns whether the board
    /// changed.
    pub fn swipe(&mut self, direction: Swipe) -> (changed: bool)
        ensures
            final(self)@ == swiped(old(self)@, direction),
            changed == moves_board(old(self)@, direction),
            valid(final(self)@),
    {
        let (next, _) = self.slid(direction);
        let changed = !same_cells(&self.cells, &next);
        self.cells = next;
        changed
    }

    /// Whether a swipe in this direction would change the board.
    pub fn can_swipe(&self, direction: Swipe) -> (legal: bool)
        ensures
            legal == moves_board(self@, direction),
    {
        let (next, _) = self.slid(direction);
        !same_cells(&self.cells, &next)
    }

    /// The score of a swipe in this direction: the sum of the tiles that its
    /// merges would create.
    pub fn merge_score(&self, direction: Swipe) -> (score: u32)
        ensures
            score == swipe_gain(self@, direction),
    {
        let (_, score) = self.slid(direction);
        score
    }

    /// The swipes that would change the board.
    pub fn legal_swipes(&self) -> (swipes: Vec<Swipe>)
        ensures
            swipes@ == legal_swipes_of(self@),
    {
        let ghost up = swipe_if_legal(self@, Swipe::Up);
        let ghost down = swipe_if_legal(self@, Swipe::Down);
        let ghost left = swipe_if_legal(self@, Swipe::Left);
        let ghost right = swipe_if_legal(self@, Swipe::Right);
        let mut swipes: Vec<Swipe> = Vec::new();
        if self.can_swipe(Swipe::Up) {
            swipes.push(Swipe::Up);
        }
        assert(swipes@ =~= up);
        if self.can_swipe(Swipe::Down) {
            swipes.push(Swipe::Down);
        }
        assert(swipes@ =~= up + down);
        if self.can_swipe(Swipe::Left) {
            swipes.push(Swipe::Left);
        }
        assert(swipes@ =~= up + down + left);
        if self.can_swipe(Swipe::Right) {
            swipes.push(Swipe::Right);
        }
        assert(swipes@ =~= up + down + left + right);
        swipes
    }

    /// Whether no swipe would change the board.
    pub fn is_stuck(&self) -> (none: bool)
        ensures
            none == stuck(self@),
    {
        let none = !self.can_swipe(Swipe::Up) && !self.can_swipe(Swipe::Down) && !self.can_swipe(
            Swipe::Left,
        ) && !self.can_swipe(Swipe::Right);
        proof {
            if none {
                assert forall|d: Swipe| !moves_board(self@, d) by {
                    match d {
                        Swipe::Up => {},
                        Swipe::Down => {},
                        Swipe::Left => {},
                        Swipe::Right => {},
                    }
                }
            }
        }
        none
    }

    /// Whether the game is over: the board is full, and no swipe would change
    /// it. That is so exactly where the board is full and no tile has an equal
    /// neighbour.
    pub fn is_game_over(&self) -> (over: bool)
        ensures
            over == (gapless(self@) && stuck(self@)),
            over == (gapless(self@) && no_equal_pair(self@)),
    {
        proof {
            use_type_invariant(self);
            if gapless(self@) && no_equal_pair(self@) {
                lemma_full_board_without_pair_is_stuck(self@);
            }
            if gapless(self@) && stuck(self@) {
                assert(self@[0] != blank()[0]);
                lemma_stuck_board_is_full(self@);
            }
        }
        self.is_full() && self.is_stuck()
    }

    /// Puts a new tile on the board, if it is a 2 or a 4 and its cell is an
    /// empty cell of the grid. Returns whether it did.
    pub fn place(&mut self, p: Placement) -> (done: bool)
        ensures
            done == can_place(old(self)@, p),
            final(self)@ == placed(old(self)@, p),
            valid(final(self)@),
    {
        proof {
            use_type_invariant(&*self);
        }
        if p.row < 4 && p.col < 4 && (p.value == 2 || p.value == 4) && self.cells[4 * p.row
            + p.col] == 0 {
            let mut cells = self.cells;
            cells[4 * p.row + p.col] = p.value;
            proof {
                lemma_place_valid(self@, 4 * p.row + p.col, p.value as nat);
                assert(nats(cells@) =~= self@.update(4 * p.row + p.col, p.value as nat));
            }
            self.cells = cells;
            true
        } else {
            false
        }
    }

    /// The placements that the computer can make: a 2 and a 4 into each empty
    /// cell.
    pub fn placements(&self) -> (list: Vec<Placement>)
        ensures
            list@ == placements_of(self@, 16),
    {
        let mut list: Vec<Placement> = Vec::new();
        let mut k: usize = 0;
        while k < 16
            invariant
                k <= 16,
                list@ == placements_of(self@, k as nat),
            decreases 16 - k,
        {
            if self.cells[k] == 0 {
                list.push(Placement { row: k / 4, col: k % 4, value: 2 });
                list.push(Placement { row: k / 4, col: k % 4, value: 4 });
                assert(list@ =~= placements_of(self@, k as nat) + placements_at(k as int));
            }
            k += 1;
        }
        list
    }

    /// Puts a tile of value 2 or 4 into the empty cell that has `n` empty
    /// cells before it, counting row by row. Returns the number of that cell,
    /// or `None`, and no change, where there is no such cell or `value` is
    /// neither 2 nor 4.
    pub fn place_in_free(&mut self, n: usize, value: u32) -> (at: Option<usize>)
        ensures
            at is Some <==> n < free_count(old(self)@) && (value == 2 || value == 4),
            at matches Some(k) ==> k < 16 && old(self)@[k as int] == 0 && free_count(
                old(self)@.take(k as int),
            ) == n && final(self)@ == old(self)@.update(k as int, value as nat),
            at is None ==> final(self)@ == old(self)@,
            valid(final(self)@),
    {
        proof {
            use_type_invariant(&*self);
        }
        if value != 2 && value != 4 {
            return None;
        }
        let mut seen: usize = 0;
        let mut k: usize = 0;
        assert(self@.take(0) =~= Seq::<nat>::empty());
        while k < 16
            invariant
                k <= 16,
                *self == *old(self),
                valid(self@),
                value == 2 || value == 4,
                seen == free_count(self@.take(k as int)),
                seen <= n,
                seen <= k,
            decreases 16 - k,
        {
            proof {
                lemma_tiles_push(self@.take(k as int), self@[k as int]);
                lemma_tiles_shape(self@.take(k as int));
                assert(self@.take(k as int + 1) =~= self@.take(k as int).push(self@[k as int]));
            }
            if self.cells[k] == 0 {
                if seen == n {
                    let mut cells = self.cells;
                    cells[k] = value;
                    proof {
                        lemma_place_valid(self@, k as int, value as nat);
                        assert(nats(cells@) =~= self@.update(k as int, value as nat));
                        lemma_free_count_prefix(self@, k as int);
                    }
                    self.cells = cells;
                    return Some(k);
                }
                seen += 1;
            }
            k += 1;
        }
        assert(self@.take(16) =~= self@);
        None
    }

    /// Puts a new tile on the board as two draws say: `cell_draw` is the number
    /// of empty cells that lie before its cell, counting row by row, and
    /// `value_draw` gives its value by `drawn_tile`. Returns the number of the
    /// cell, or `None`, and no change, where the board has no such cell.
    pub fn place_drawn(&mut self, cell_draw: u32, value_draw: u32) -> (at: Option<usize>)
        ensures
            at is Some <==> cell_draw < free_count(old(self)@),
            at matches Some(k) ==> k < 16 && old(self)@[k as int] == 0 && free_count(
                old(self)@.take(k as int),
            ) == cell_draw && final(self)@ == old(self)@.update(
                k as int,
                drawn_tile(value_draw) as nat,
            ),
            at is None ==> final(self)@ == old(self)@,
            valid(final(self)@),
    {
        self.place_in_free(cell_draw as usize, tile_for(value_draw))
    }

    /// Puts a new tile into an empty cell chosen at random, each with the
    /// same chance: a 2 nine times in ten, a 4 otherwise. Two numbers are
    /// drawn, and `place_drawn` does the rest. Returns whether a tile was
    /// placed: only a full board takes none.
    pub fn add_random(&mut self) -> (added: bool)
        ensures
            added == !gapless(old(self)@),
            added ==> exists|k: int, v: nat|
                0 <= k < 16 && old(self)@[k] == 0 && (v == 2 || v == 4) && final(self)@
                    == #[trigger] old(self)@.update(k, v),
            added ==> tiles(final(self)@).len() == tiles(old(self)@).len() + 1,
            !added ==> final(self)@ == old(self)@,
            valid(final(self)@),
    {
        proof {
            use_type_invariant(&*self);
            lemma_tiles_shape(self@);
        }
        let free = self.free_count();
        if free == 0 {
            return false;
        }
        let cell_draw = random_below(free as u32);
        let value_draw = random_below(FOUR_ODDS);
        let at = self.place_drawn(cell_draw, value_draw);
        proof {
            let k = at->0 as int;
            lemma_tiles_update(old(self)@, k, drawn_tile(value_draw) as nat);
        }
        at.is_some()
    }

    /// The computer's move in the game: one new random tile, as `add_random`
    /// places it.
    pub fn computer_move(&mut self) -> (added: bool)
        ensures
            added == !gapless(old(self)@),
            added ==> exists|k: int, v: nat|
                0 <= k < 16 && old(self)@[k] == 0 && (v == 2 || v == 4) && final(self)@
                    == #[trigger] old(self)@.update(k, v),
            added ==> tiles(final(self)@).len() == tiles(old(self)@).len() + 1,
            !added ==> final(self)@ == old(self)@,
            valid(final(self)@),
    {
        self.add_random()
    }

    /// Makes a move of either side. Returns whether the board changed.
    pub fn apply_move(&mut self, m: Moves) -> (changed: bool)
        ensures
            final(self)@ == applied(old(self)@, m),
            changed == (final(self)@ != old(self)@),
            valid(final(self)@),
    {
        match m {
            Moves::Player(d) => self.swipe(d),
            Moves::Computer(p) => {
                let done = self.place(p);
                proof {
                    if done {
                        assert(final(self)@[4 * p.row + p.col] != old(self)@[4 * p.row + p.col]);
                    }
                }
                done
            },
        }
    }

    /// The value in one cell; `0` if it is empty.
    pub fn get(&self, row: usize, col: usize) -> (v: u32)
        requires
            row < 4,
            col < 4,
        ensures
            v == self@[4 * row + col],
    {
        self.cells[4 * row + col]
    }
}

/// One time in this many, a new tile is a 4.
pub const FOUR_ODDS: u32 = 10;

/// The empty cells of a part of the board are no more than those of the whole.
proof fn lemma_free_count_prefix(cells: Seq<nat>, k: int)
    requires
        0 <= k < cells.len(),
        cells[k] == 0,
    ensures
        free_count(cells.take(k)) < free_count(cells),
    decreases cells.len() - k,
{
    lemma_tiles_push(cells.take(k), cells[k]);
    lemma_tiles_shape(cells.take(k));
    lemma_tiles_shape(cells.take(k + 1));
    assert(cells.take(k + 1) =~= cells.take(k).push(cells[k]));
    lemma_free_count_grows(cells, k + 1);
}

proof fn lemma_free_count_grows(cells: Seq<nat>, k: int)
    requires
        0 <= k <= cells.len(),
    ensures
        free_count(cells.take(k)) <= free_count(cells),
    decreases cells.len() - k,
{
    if k < cells.len() {
        lemma_tiles_push(cells.take(k), cells[k]);
        lemma_tiles_shape(cells.take(k));
        lemma_tiles_shape(cells.take(k + 1));
        assert(cells.take(k + 1) =~= cells.take(k).push(cells[k]));
        lemma_free_count_grows(cells, k + 1);
    } else {
        assert(cells.take(k) =~= cells);
    }
}

proof fn lemma_total_zero(s: Seq<nat>)
    requires
        forall|i: int| 0 <= i < s.len() ==> s[i] == 0,
    ensures
        total(s) == 0,
        all_tiles(s),
    decreases s.len(),
{
    if s.len() > 0 {
        assert forall|i: int| 0 <= i < s.drop_first().len() implies s.drop_first()[i] == 0 by {
            assert(s.drop_first()[i] == s[i + 1]);
        }
        lemma_total_zero(s.drop_first());
    }
}

} // verus!
