//! The game as the search sees it: two sides that move in turn. The player
//! swipes; the computer stands for chance and places the new tile.

use crate::board::{
    applied, legal_swipes_of, placements_of, stuck, Board, Moves, Placement, Swipe,
};
use crate::evaluators::{
    evaluate, heuristic, rank, tile_rank, TwentyFortyEightEvaluator, MAX_SCORE,
};
use crate::line::gapless;
use vstd::prelude::*;

verus! {

/// The outcome of a finished game, as `minimax` names it.
#[verifier::external_type_specification]
#[verifier::external_body]
pub struct ExWinner(minimax::Winner);

/// Who moves.
#[derive(Clone, Copy, Debug, PartialEq, Eq, Hash, Structural)]
pub enum Side {
    Player,
    Computer,
}

/// How a game has ended, for the side that would move next.
#[derive(Clone, Copy, Debug, PartialEq, Eq, Hash, Structural)]
pub enum Outcome {
    Lost,
    Draw,
    Won,
}

/// A board, and the side that moves next.
#[derive(Clone, Copy, Debug, PartialEq, Eq, Hash)]
pub struct Position {
    pub board: Board,
    pub to_move: Side,
}

/// The rules of the game, for the search.
pub struct TwentyFortyEight;

/// Where the hash of a position starts.
pub const HASH_SEED: u64 = 0xcbf2_9ce4_8422_2325;

/// By what the hash is multiplied for each cell.
pub const HASH_FACTOR: u64 = 0x9e37_79b9_7f4a_7c15;

/// The hash stays below this bound, and so its upper 32 bits below
/// `0x4000_0000`. The table of the search keeps the upper half of a hash with
/// each entry, and keeps two values of its own there, `0x5555_5555` in a slot
/// never written and `0xffff_ffff` in one being written, which it tells from a
/// hash only up to the lowest bit. No hash of a position may look like one of
/// them.
pub const HASH_MODULUS: u64 = 0x3fff_ffff_ffff_ffc7;

/// The side that moves after `side`.
pub open spec fn other(side: Side) -> Side {
    match side {
        Side::Player => Side::Computer,
        Side::Computer => Side::Player,
    }
}

/// The side to move cannot move: the player has no swipe that changes the
/// board, or the computer has no empty cell.
pub open spec fn terminal(cells: Seq<nat>, to_move: Side) -> bool {
    match to_move {
        Side::Player => stuck(cells),
        Side::Computer => gapless(cells),
    }
}

/// How the game has ended, if it has: a side that has to move and cannot has
/// lost.
pub open spec fn outcome_of(cells: Seq<nat>, to_move: Side) -> Option<Outcome> {
    if terminal(cells, to_move) {
        Some(Outcome::Lost)
    } else {
        None
    }
}

/// The moves of the side to move: the swipes that change the board, or a 2 and
/// a 4 into each empty cell.
pub open spec fn moves_of(cells: Seq<nat>, to_move: Side) -> Seq<Moves> {
    match to_move {
        Side::Player => legal_swipes_of(cells).map_values(|d: Swipe| Moves::Player(d)),
        Side::Computer => placements_of(cells, 16).map_values(|p: Placement| Moves::Computer(p)),
    }
}

/// The score of a position for the side to move: the player's gain is the
/// computer's loss.
pub open spec fn side_score(cells: Seq<nat>, to_move: Side) -> int {
    match to_move {
        Side::Player => heuristic(cells),
        Side::Computer => -heuristic(cells),
    }
}

/// One step of the hash: the hash so far, and the next cell's code.
pub open spec fn hash_step(h: u64, code: nat) -> u64 {
    ((h * HASH_FACTOR + code) % (HASH_MODULUS as int)) as u64
}

/// The hash of the first `n` cells.
pub open spec fn cells_hash(cells: Seq<nat>, n: nat) -> u64
    decreases n,
{
    if n == 0 {
        HASH_SEED
    } else {
        hash_step(cells_hash(cells, (n - 1) as nat), rank(cells[n - 1]))
    }
}

/// The code of a side in the hash.
pub open spec fn side_code(side: Side) -> nat {
    match side {
        Side::Player => 0,
        Side::Computer => 1,
    }
}

/// The hash of a position: that of its sixteen cells, and then the side to
/// move.
pub open spec fn position_hash(cells: Seq<nat>, to_move: Side) -> u64 {
    hash_step(cells_hash(cells, 16), side_code(to_move))
}

fn step(h: u64, code: u8) -> (next: u64)
    ensures
        next == hash_step(h, code as nat),
{
    assert(h * HASH_FACTOR <= 0xffff_ffff_ffff_ffff * 0xffff_ffff_ffff_ffff) by (nonlinear_arith)
        requires
            h <= 0xffff_ffff_ffff_ffff,
            HASH_FACTOR <= 0xffff_ffff_ffff_ffff,
    ;
    let wide: u128 = h as u128 * (HASH_FACTOR as u128) + code as u128;
    (wide % (HASH_MODULUS as u128)) as u64
}

fn push_swipes(moves: &mut Vec<Moves>, swipes: &Vec<Swipe>)
    ensures
        final(moves)@ == old(moves)@ + swipes@.map_values(|d: Swipe| Moves::Player(d)),
{
    let ghost start = moves@;
    let ghost f = |d: Swipe| Moves::Player(d);
    let mut i: usize = 0;
    assert(moves@ =~= start + swipes@.take(0).map_values(f));
    while i < swipes.len()
        invariant
            i <= swipes.len(),
            f == |d: Swipe| Moves::Player(d),
            moves@ == start + swipes@.take(i as int).map_values(f),
        decreases swipes.len() - i,
    {
        moves.push(Moves::Player(swipes[i]));
        assert(swipes@.take(i as int + 1) =~= swipes@.take(i as int).push(swipes@[i as int]));
        assert(moves@ =~= start + swipes@.take(i as int + 1).map_values(f));
        i += 1;
    }
    assert(swipes@.take(swipes.len() as int) =~= swipes@);
}

fn push_placements(moves: &mut Vec<Moves>, list: &Vec<Placement>)
    ensures
        final(moves)@ == old(moves)@ + list@.map_values(|p: Placement| Moves::Computer(p)),
{
    let ghost start = moves@;
    let ghost f = |p: Placement| Moves::Computer(p);
    let mut i: usize = 0;
    assert(moves@ =~= start + list@.take(0).map_values(f));
    while i < list.len()
        invariant
            i <= list.len(),
            f == |p: Placement| Moves::Computer(p),
            moves@ == start + list@.take(i as int).map_values(f),
        decreases list.len() - i,
    {
        moves.push(Moves::Computer(list[i]));
        assert(list@.take(i as int + 1) =~= list@.take(i as int).push(list@[i as int]));
        assert(moves@ =~= start + list@.take(i as int + 1).map_values(f));
        i += 1;
    }
    assert(list@.take(list.len() as int) =~= list@);
}

impl Side {
    /// The side that moves after this one.
    pub fn opponent(self) -> (next: Side)
        ensures
            next == other(self),
    {
        match self {
            Side::Player => Side::Computer,
            Side::Computer => Side::Player,
        }
    }
}

impl Position {
    /// The position in which the player is to move on `board`.
    pub fn players_turn(board: &Board) -> (position: Position)
        ensures
            position.board@ == board@,
            position.to_move == Side::Player,
    {
        Position { board: *board, to_move: Side::Player }
    }

    /// Whether the side to move has no move.
    pub fn is_terminal(&self) -> (over: bool)
        ensures
            over == terminal(self.board@, self.to_move),
    {
        match self.to_move {
            Side::Player => self.board.is_stuck(),
            Side::Computer => self.board.is_full(),
        }
    }

    /// How the game has ended, if it has.
    pub fn outcome(&self) -> (outcome: Option<Outcome>)
        ensures
            outcome == outcome_of(self.board@, self.to_move),
    {
        if self.is_terminal() {
            Some(Outcome::Lost)
        } else {
            None
        }
    }

    /// Adds the moves of the side to move to `moves`.
    pub fn list_moves(&self, moves: &mut Vec<Moves>)
        ensures
            final(moves)@ == old(moves)@ + moves_of(self.board@, self.to_move),
    {
        match self.to_move {
            Side::Player => {
                let swipes = self.board.legal_swipes();
                push_swipes(moves, &swipes);
            },
            Side::Computer => {
                let list = self.board.placements();
                push_placements(moves, &list);
            },
        }
    }

    /// The position after a move: the board with the move made on it, and the
    /// other side to move.
    pub fn play(&self, m: Moves) -> (next: Position)
        ensures
            next.board@ == applied(self.board@, m),
            next.to_move == other(self.to_move),
    {
        let mut board = self.board;
        let _ = board.apply_move(m);
        Position { board, to_move: self.to_move.opponent() }
    }

    /// A hash of the position, below `HASH_MODULUS`. Equal positions have
    /// equal hashes.
    pub fn hash(&self) -> (h: u64)
        ensures
            h == position_hash(self.board@, self.to_move),
            h < HASH_MODULUS,
    {
        let rows = self.board.cells();
        let mut h: u64 = HASH_SEED;
        let mut k: usize = 0;
        while k < 16
            invariant
                k <= 16,
                crate::board::grid(rows) == self.board@,
                h == cells_hash(self.board@, k as nat),
            decreases 16 - k,
        {
            let v = rows[k / 4][k % 4];
            assert(v as nat == self.board@[k as int]);
            h = step(h, tile_rank(v));
            k += 1;
        }
        match self.to_move {
            Side::Player => step(h, 0),
            Side::Computer => step(h, 1),
        }
    }

    /// The score of the position for the side to move.
    pub fn score(&self) -> (score: i16)
        ensures
            score == side_score(self.board@, self.to_move),
            -MAX_SCORE <= score <= MAX_SCORE,
    {
        let score = evaluate(&self.board);
        match self.to_move {
            Side::Player => score,
            Side::Computer => -score,
        }
    }
}

/// Names an outcome as `minimax::Winner` does, which speaks of the player who
/// has just moved and the player to move: where the side to move has lost, the
/// player who has just moved has won. Nothing is stated of the value, which
/// the proofs cannot look into.
#[verifier::external_body]
fn as_winner(outcome: Outcome) -> minimax::Winner {
    match outcome {
        Outcome::Lost => minimax::Winner::PlayerJustMoved,
        Outcome::Draw => minimax::Winner::Draw,
        Outcome::Won => minimax::Winner::PlayerToMove,
    }
}

impl minimax::Game for TwentyFortyEight {
    type S = Position;

    type M = Moves;

    fn generate_moves(state: &Position, moves: &mut Vec<Moves>)
        ensures
            final(moves)@ == old(moves)@ + moves_of(state.board@, state.to_move),
    {
        state.list_moves(moves);
    }

    fn apply(state: &mut Position, m: Moves) -> (next: Option<Position>)
        ensures
            *final(state) == *old(state),
            next matches Some(p) && p.board@ == applied(old(state).board@, m) && p.to_move
                == other(old(state).to_move),
    {
        Some(state.play(m))
    }

    fn get_winner(state: &Position) -> (winner: Option<minimax::Winner>)
        ensures
            winner is Some <==> terminal(state.board@, state.to_move),
    {
        match state.outcome() {
            Some(outcome) => Some(as_winner(outcome)),
            None => None,
        }
    }

    fn zobrist_hash(state: &Position) -> (h: u64)
        ensures
            h == position_hash(state.board@, state.to_move),
            h < HASH_MODULUS,
    {
        state.hash()
    }
}

impl minimax::Evaluator for TwentyFortyEightEvaluator {
    type G = TwentyFortyEight;

    fn evaluate(&self, s: &Position) -> (score: i16)
        ensures
            score == side_score(s.board@, s.to_move),
            -MAX_SCORE <= score <= MAX_SCORE,
    {
        s.score()
    }
}

} // verus!
