//! One turn of the game per frame: the keys and the timer give at most one
//! swipe, the swipe is made, and a new tile follows it.

use crate::board::{blank, moves_board, stuck, swiped, valid, Board, Swipe};
use crate::laws::lemma_swipe_frees_a_cell;
use crate::line::tiles;
use crate::board::Moves;
use crate::search::{
    cap_depth, capped_depth, player_swipe, searches_after, SearchEngine, WrongPlayersTurn,
    DEFAULT_DEPTH,
};
use vstd::prelude::*;

verus! {

/// The size of the engine's table, in bytes.
pub const TABLE_BYTES: usize = 128_000_000;

/// The number of the engine's worker threads.
pub const THREADS: usize = 8;

/// What the player has set: whether the engine plays, how many milliseconds
/// lie between its moves, and how deep it searches.
#[derive(Clone, Copy, Debug, PartialEq, Eq, Structural)]
pub struct UiSettings {
    pub automatic: bool,
    pub speed: u32,
    pub depth: u8,
}

/// Which of the four directions were pressed in this frame.
#[derive(Clone, Copy, Debug, PartialEq, Eq, Structural)]
pub struct KeysPressed {
    pub up: bool,
    pub down: bool,
    pub left: bool,
    pub right: bool,
}

/// The time since the engine's last search, in microseconds.
#[derive(Clone, Copy, Debug, PartialEq, Eq)]
pub struct MoveTimer {
    elapsed: u64,
}

/// A move for the record: the board before it, and the swipe.
#[derive(Clone, Copy, Debug, PartialEq, Eq)]
pub struct InoutPair {
    pub input: Board,
    pub output: Swipe,
}

/// The swipe that the keys ask for: where several were pressed, the first of
/// up, down, left, right.
pub open spec fn human_swipe(keys: KeysPressed) -> Option<Swipe> {
    if keys.up {
        Some(Swipe::Up)
    } else if keys.down {
        Some(Swipe::Down)
    } else if keys.left {
        Some(Swipe::Left)
    } else if keys.right {
        Some(Swipe::Right)
    } else {
        None
    }
}

/// The time between two moves of the engine, in microseconds.
pub open spec fn interval(settings: UiSettings) -> int {
    settings.speed * 1000
}

/// The timer after `delta` more microseconds. It stops at the largest value it
/// can hold.
pub open spec fn accumulated(elapsed: u64, delta: u64) -> u64 {
    if elapsed + delta > u64::MAX {
        u64::MAX
    } else {
        (elapsed + delta) as u64
    }
}

/// Whether the engine searches in this frame: it plays, the player pressed no
/// direction, and more time than the interval has passed since its last search.
pub open spec fn search_due(
    keys: KeysPressed,
    settings: UiSettings,
    elapsed: u64,
    delta: u64,
) -> bool {
    settings.automatic && human_swipe(keys) is None && elapsed + delta > interval(settings)
}

/// The timer after the frame: untouched while the engine does not play, back
/// at zero after a search, and grown by the frame's time otherwise.
pub open spec fn timer_after(
    keys: KeysPressed,
    settings: UiSettings,
    elapsed: u64,
    delta: u64,
) -> u64 {
    if !settings.automatic {
        elapsed
    } else if search_due(keys, settings, elapsed, delta) {
        0
    } else {
        accumulated(elapsed, delta)
    }
}

/// A turn that was taken: the record holds the board before it and the swipe,
/// the swipe changed the board, and one new tile, a 2 or a 4, stands in a cell
/// that the swipe left empty.
pub open spec fn played(before: Seq<nat>, pair: InoutPair, after: Seq<nat>) -> bool {
    &&& pair.input@ == before
    &&& moves_board(before, pair.output)
    &&& exists|k: int, v: nat|
        0 <= k < 16 && swiped(before, pair.output)[k] == 0 && (v == 2 || v == 4) && after
            == #[trigger] swiped(before, pair.output).update(k, v)
}

/// The board at the start of a game: two tiles, each a 2 or a 4.
pub open spec fn opening(cells: Seq<nat>) -> bool {
    exists|j: int, k: int, v: nat, w: nat|
        0 <= j < 16 && 0 <= k < 16 && j != k && (v == 2 || v == 4) && (w == 2 || w == 4) && cells
            == #[trigger] blank().update(j, v).update(k, w)
}

impl View for MoveTimer {
    type V = u64;

    closed spec fn view(&self) -> u64 {
        self.elapsed
    }
}

impl MoveTimer {
    /// A timer at zero.
    pub fn new() -> (timer: MoveTimer)
        ensures
            timer@ == 0,
    {
        MoveTimer { elapsed: 0 }
    }

    /// The time since the last search, in microseconds.
    pub fn elapsed_micros(&self) -> (elapsed: u64)
        ensures
            elapsed == self@,
    {
        self.elapsed
    }

    /// Adds the time of a frame. Returns whether the timer now stands above
    /// `interval` microseconds.
    pub fn advance(&mut self, delta_micros: u64, interval: u64) -> (due: bool)
        ensures
            final(self)@ == accumulated(old(self)@, delta_micros),
            due == (accumulated(old(self)@, delta_micros) > interval),
    {
        self.elapsed = self.elapsed.saturating_add(delta_micros);
        self.elapsed > interval
    }

    /// Sets the timer back to zero.
    pub fn reset(&mut self)
        ensures
            final(self)@ == 0,
    {
        self.elapsed = 0;
    }
}

/// Reads the keys of a frame: at most one swipe.
pub fn resolve_input(keys: KeysPressed) -> (swipe: Option<Swipe>)
    ensures
        swipe == human_swipe(keys),
{
    if keys.up {
        Some(Swipe::Up)
    } else if keys.down {
        Some(Swipe::Down)
    } else if keys.left {
        Some(Swipe::Left)
    } else if keys.right {
        Some(Swipe::Right)
    } else {
        None
    }
}

/// The start of a session: a board with its first two tiles, and the engine
/// with a table of `TABLE_BYTES` bytes and `THREADS` worker threads, which it
/// keeps for the whole session.
pub fn setup() -> (start: (Board, SearchEngine))
    ensures
        opening(start.0@),
        tiles(start.0@).len() == 2,
        valid(start.0@),
        start.1.table_bytes() == TABLE_BYTES,
        start.1.threads() == THREADS,
        start.1.depth() == DEFAULT_DEPTH,
        start.1.searches() == 0,
{
    let mut board = Board::new();
    let ghost empty = board@;
    let _ = board.add_random();
    let ghost one = board@;
    let _ = board.add_random();
    proof {
        assert(empty[0] == 0);
        let (j, v) = choose|j: int, v: nat|
            0 <= j < 16 && empty[j] == 0 && (v == 2 || v == 4) && one == #[trigger] empty.update(
                j,
                v,
            );
        assert(one[(j + 1) % 16] == 0);
        let (k, w) = choose|k: int, w: nat|
            0 <= k < 16 && one[k] == 0 && (w == 2 || w == 4) && board@ == #[trigger] one.update(
                k,
                w,
            );
        assert(board@ == blank().update(j, v).update(k, w));
        assert(tiles(empty).len() == 0) by {
            crate::line::lemma_tiles_shape(empty);
            lemma_no_tiles(empty);
        }
    }
    (board, SearchEngine::new(TABLE_BYTES, THREADS))
}

proof fn lemma_no_tiles(cells: Seq<nat>)
    requires
        forall|i: int| 0 <= i < cells.len() ==> cells[i] == 0,
    ensures
        tiles(cells).len() == 0,
    decreases cells.len(),
{
    if cells.len() > 0 {
        assert forall|i: int| 0 <= i < cells.drop_first().len() implies cells.drop_first()[i]
            == 0 by {
            assert(cells.drop_first()[i] == cells[i + 1]);
        }
        lemma_no_tiles(cells.drop_first());
    }
}

/// Makes the swipe on the board. Where it changes nothing, the turn is passed
/// over: no tile, no record. Where it changes the board, a new tile follows,
/// and the move is returned for the record, with the board as it was before.
pub fn take_turn(board: &mut Board, swipe: Swipe) -> (turn: Option<InoutPair>)
    ensures
        turn is Some <==> moves_board(old(board)@, swipe),
        turn matches Some(pair) ==> pair.output == swipe && played(
            old(board)@,
            pair,
            final(board)@,
        ),
        turn is None ==> final(board)@ == old(board)@,
        valid(final(board)@),
{
    let before = *board;
    if board.swipe(swipe) {
        proof {
            use_type_invariant(&before);
            lemma_swipe_frees_a_cell(before@, swipe);
        }
        let _ = board.computer_move();
        Some(InoutPair { input: before, output: swipe })
    } else {
        None
    }
}

/// Plays the answer of a search. No answer passes the turn over; a swipe is
/// made as in `take_turn`; a move of the computer is refused, and the board is
/// left as it is.
pub fn play_answer(board: &mut Board, found: Option<Moves>) -> (turn: Result<
    Option<InoutPair>,
    WrongPlayersTurn,
>)
    ensures
        found matches Some(Moves::Computer(_)) ==> turn is Err && final(board)@ == old(board)@,
        found is None ==> turn == Ok::<Option<InoutPair>, WrongPlayersTurn>(None),
        found is None ==> final(board)@ == old(board)@,
        found matches Some(Moves::Player(swipe)) ==> turn matches Ok(taken) && (taken is Some
            <==> moves_board(old(board)@, swipe)),
        found matches Some(Moves::Player(swipe)) ==> (turn matches Ok(Some(pair))
            ==> pair.output == swipe && played(old(board)@, pair, final(board)@)),
        turn == Ok::<Option<InoutPair>, WrongPlayersTurn>(None) ==> final(board)@ == old(board)@,
        valid(final(board)@),
{
    proof {
        use_type_invariant(&*board);
    }
    match player_swipe(found) {
        Ok(Some(swipe)) => Ok(take_turn(board, swipe)),
        Ok(None) => Ok(None),
        Err(wrong) => Err(wrong),
    }
}

/// One frame. The keys give the player's swipe. While the engine plays, the
/// timer runs; once more than the interval has passed, and the player pressed
/// nothing, the timer goes back to zero and the engine searches once, at the
/// depth that is set (or at the largest that it can be given), and its answer
/// is played as in `play_answer`. In no other frame does the engine search.
/// The player's swipe, if there is one, is made as in `take_turn`.
///
/// Returns the move for the record where the board changed, `None` where the
/// turn was passed over, and an error, with the board untouched, where the
/// search answered with a move of the computer.
pub fn update(
    keys: KeysPressed,
    settings: &UiSettings,
    delta_micros: u64,
    board: &mut Board,
    timer: &mut MoveTimer,
    engine: &mut SearchEngine,
) -> (turn: Result<Option<InoutPair>, WrongPlayersTurn>)
    ensures
        final(timer)@ == timer_after(keys, *settings, old(timer)@, delta_micros),
        final(engine).depth() == if search_due(keys, *settings, old(timer)@, delta_micros) {
            capped_depth(settings.depth)
        } else {
            old(engine).depth()
        },
        final(engine).searches() == if search_due(keys, *settings, old(timer)@, delta_micros) {
            searches_after(old(engine).searches())
        } else {
            old(engine).searches()
        },
        final(engine).table_bytes() == old(engine).table_bytes(),
        final(engine).threads() == old(engine).threads(),
        !search_due(keys, *settings, old(timer)@, delta_micros) ==> (turn matches Ok(taken) && (
        match human_swipe(keys) {
            Some(swipe) => taken is Some <==> moves_board(old(board)@, swipe),
            None => taken is None,
        })),
        search_due(keys, *settings, old(timer)@, delta_micros) && stuck(old(board)@) ==> turn
            == Ok::<Option<InoutPair>, WrongPlayersTurn>(None),
        turn matches Ok(Some(pair)) ==> played(old(board)@, pair, final(board)@) && (human_swipe(
            keys,
        ) matches Some(swipe) ==> pair.output == swipe),
        turn is Err ==> final(board)@ == old(board)@,
        turn == Ok::<Option<InoutPair>, WrongPlayersTurn>(None) ==> final(board)@ == old(board)@,
        turn is Err ==> search_due(keys, *settings, old(timer)@, delta_micros),
        valid(final(board)@),
{
    proof {
        use_type_invariant(&*board);
    }
    let swipe = resolve_input(keys);
    if settings.automatic {
        let due = timer.advance(delta_micros, settings.speed as u64 * 1000);
        if due && swipe.is_none() {
            timer.reset();
            engine.set_max_depth(cap_depth(settings.depth));
            let found = engine.choose_move(board);
            return play_answer(board, found);
        }
    }
    match swipe {
        Some(swipe) => Ok(take_turn(board, swipe)),
        None => Ok(None),
    }
}

} // verus!
