//! The search for the player's best move. The search itself is the `minimax`
//! crate's parallel, iteratively deepened search with its shared table of
//! positions; this module owns it, hands it the position, and checks what
//! comes back. It also counts the searches: a table serves
//! `SEARCHES_PER_TABLE` of them, and then gives way to a new one.

use crate::board::{moves_board, stuck, Board, Moves, Swipe};
use crate::evaluators::TwentyFortyEightEvaluator;
use crate::game::{terminal, Position};
use crate::laws::{lemma_full_board_without_pair_is_stuck, no_equal_pair};
use crate::line::gapless;
use vstd::prelude::*;

verus! {

/// The depth to which a new engine searches.
pub const DEFAULT_DEPTH: u8 = 99;

/// The largest depth that the search can be given. It counts the depth it has
/// reached in eight bits, and steps one past the depth it is given.
pub const MAX_DEPTH: u8 = 254;

/// How many searches one table serves. The search marks each entry of its
/// table with the number of the search that wrote it, counted in eight bits,
/// and lets an entry of the running search stand where it is the deeper one.
/// After this many searches the numbers come round again, and an old entry
/// could pass for one of the running search; so the engine starts a new table
/// before that.
pub const SEARCHES_PER_TABLE: usize = 256;

/// A `minimax::ParallelSearch` over this game: its table, its worker threads
/// and its settings. Nothing inside it is visible to the proofs; what they
/// need of it has a name below.
#[verifier::external_body]
pub struct Searcher {
    inner: minimax::ParallelSearch<TwentyFortyEightEvaluator>,
}

/// The number of searches that the table of the search has served: how often
/// the search has moved on to a new number for its entries.
pub uninterp spec fn served(searcher: Searcher) -> nat;

/// The depth to which the search looks.
pub uninterp spec fn depth_limit(searcher: Searcher) -> u8;

/// The size that was asked for the table of the search, in bytes.
pub uninterp spec fn table_budget(searcher: Searcher) -> usize;

/// The number of worker threads that was asked for the search; `0` where the
/// number was left to the machine.
pub uninterp spec fn thread_count(searcher: Searcher) -> usize;

/// What the engine keeps beside its search, to read it and to build the
/// search anew: what the search was built with, the depth that it was given,
/// and a count of the searches on its present table.
struct Book {
    table_bytes: usize,
    threads: usize,
    max_depth: u8,
    depth_given: bool,
    searches: usize,
}

/// The search engine of one session: the search with its table, and the book
/// that is kept on it.
pub struct SearchEngine {
    searcher: Searcher,
    book: Book,
}

/// The search answered with a move of the computer where the player's move
/// was asked for.
#[derive(Clone, Copy, Debug, PartialEq, Eq, Structural)]
pub struct WrongPlayersTurn;

/// Builds the search with `minimax::ParallelSearch::new`, with a table of
/// `table_bytes` bytes and `threads` worker threads (`0` leaves the number to
/// the machine). The new search keeps both numbers in its options, looks to a
/// depth of 99, and its table has served no search. The table is allocated at
/// once, with up to twice the bytes asked for, and no allocation may pass
/// half the address space: hence the bound. The call fails only where the
/// machine refuses the memory or the threads.
#[verifier::external_body]
fn start_search(table_bytes: usize, threads: usize) -> (searcher: Searcher)
    requires
        table_bytes <= usize::MAX / 4,
    ensures
        served(searcher) == 0,
        depth_limit(searcher) == DEFAULT_DEPTH,
        table_budget(searcher) == table_bytes,
        thread_count(searcher) == threads,
{
    Searcher {
        inner: minimax::ParallelSearch::new(
            TwentyFortyEightEvaluator,
            minimax::IterativeOptions::new().with_table_byte_size(table_bytes),
            minimax::ParallelOptions::new().with_num_threads(threads),
        ),
    }
}

/// Hands the depth to the search with `minimax::Strategy::set_max_depth`,
/// which stores it and switches the time limit off, and touches nothing else.
#[verifier::external_body]
fn push_depth(searcher: &mut Searcher, depth: u8)
    ensures
        depth_limit(*final(searcher)) == depth,
        served(*final(searcher)) == served(*old(searcher)),
        table_budget(*final(searcher)) == table_budget(*old(searcher)),
        thread_count(*final(searcher)) == thread_count(*old(searcher)),
    no_unwind
{
    minimax::Strategy::set_max_depth(&mut searcher.inner, depth)
}

/// Runs `minimax::Strategy::choose_move` on the position. The search begins
/// by asking the game for a winner, and answers `None` where there is one:
/// that is where the side to move has no move. Of any other answer nothing is
/// stated here: it comes out of the table that all searches of the session
/// share, and is checked by the caller. A search leaves its depth and its
/// options alone, and moves on by one number at most.
///
/// The search gives up where, after searching the position, it does not find
/// the position's entry in its table. It writes that entry unless the slot
/// holds a deeper entry with the number of the running search, and the
/// numbers come round after `SEARCHES_PER_TABLE` searches: hence the bound on
/// the searches served. It also writes it unless the slot bears one of the
/// table's two marks, which no hash below `HASH_MODULUS` can bring about, and
/// `Position::hash` stays below that. And it steps one past its depth in
/// eight bits: hence the bound on the depth.
#[verifier::external_body]
fn run_search(searcher: &mut Searcher, position: &Position) -> (found: Option<Moves>)
    requires
        served(*old(searcher)) < SEARCHES_PER_TABLE,
        depth_limit(*old(searcher)) <= MAX_DEPTH,
    ensures
        terminal(position.board@, position.to_move) ==> found is None,
        served(*final(searcher)) <= served(*old(searcher)) + 1,
        depth_limit(*final(searcher)) == depth_limit(*old(searcher)),
        table_budget(*final(searcher)) == table_budget(*old(searcher)),
        thread_count(*final(searcher)) == thread_count(*old(searcher)),
    no_unwind
{
    minimax::Strategy::choose_move(&mut searcher.inner, position)
}

/// Gives the search a depth and writes it into the book.
fn hand_depth(searcher: &mut Searcher, book: &mut Book, depth: u8)
    ensures
        depth_limit(*final(searcher)) == depth,
        served(*final(searcher)) == served(*old(searcher)),
        table_budget(*final(searcher)) == table_budget(*old(searcher)),
        thread_count(*final(searcher)) == thread_count(*old(searcher)),
        final(book).max_depth == depth,
        final(book).depth_given,
        final(book).table_bytes == old(book).table_bytes,
        final(book).threads == old(book).threads,
        final(book).searches == old(book).searches,
    no_unwind
{
    push_depth(searcher, depth);
    book.depth_given = true;
    book.max_depth = depth;
}

/// What the search's answer means for the player: no move, a swipe, or, for a
/// move of the computer, an error.
pub open spec fn swipe_found(found: Option<Moves>) -> Result<Option<Swipe>, WrongPlayersTurn> {
    match found {
        None => Ok(None),
        Some(Moves::Player(swipe)) => Ok(Some(swipe)),
        Some(Moves::Computer(_)) => Err(WrongPlayersTurn),
    }
}

/// Reads the search's answer as the player's swipe. A move of the computer is
/// never the player's: it is refused.
pub fn player_swipe(found: Option<Moves>) -> (swipe: Result<Option<Swipe>, WrongPlayersTurn>)
    ensures
        swipe == swipe_found(found),
{
    match found {
        None => Ok(None),
        Some(Moves::Player(swipe)) => Ok(Some(swipe)),
        Some(Moves::Computer(_)) => Err(WrongPlayersTurn),
    }
}

/// The depth that is set for a depth that is asked for: the same, or the
/// largest that the search can be given.
pub open spec fn capped_depth(depth: u8) -> u8 {
    if depth > MAX_DEPTH {
        MAX_DEPTH
    } else {
        depth
    }
}

/// The depth that is set for a depth that is asked for.
pub fn cap_depth(depth: u8) -> (capped: u8)
    ensures
        capped == capped_depth(depth),
{
    if depth > MAX_DEPTH {
        MAX_DEPTH
    } else {
        depth
    }
}

impl SearchEngine {
    /// The book agrees with the search, and both are within their bounds.
    #[verifier::type_invariant]
    spec fn tied(self) -> bool {
        &&& served(self.searcher) <= self.book.searches <= SEARCHES_PER_TABLE
        &&& depth_limit(self.searcher) == self.book.max_depth
        &&& table_budget(self.searcher) == self.book.table_bytes
        &&& thread_count(self.searcher) == self.book.threads
        &&& self.book.table_bytes <= usize::MAX / 4
        &&& self.book.max_depth <= MAX_DEPTH
        &&& !self.book.depth_given ==> self.book.max_depth == DEFAULT_DEPTH
    }

    /// The depth to which the search looks.
    pub closed spec fn depth(&self) -> u8 {
        depth_limit(self.searcher)
    }

    /// The size that was asked for the table of the search, in bytes.
    pub closed spec fn table_bytes(&self) -> usize {
        table_budget(self.searcher)
    }

    /// The number of worker threads that was asked for the search; `0` where
    /// the number was left to the machine.
    pub closed spec fn threads(&self) -> usize {
        thread_count(self.searcher)
    }

    /// The engine's count of the searches on the present table.
    pub closed spec fn searches(&self) -> usize {
        self.book.searches
    }

    /// A new engine with a table of `table_bytes` bytes and `threads` worker
    /// threads; `0` threads leaves their number to the machine. The table may
    /// take a quarter of the address space at most.
    pub fn new(table_bytes: usize, threads: usize) -> (engine: SearchEngine)
        requires
            table_bytes <= usize::MAX / 4,
        ensures
            engine.table_bytes() == table_bytes,
            engine.threads() == threads,
            engine.depth() == DEFAULT_DEPTH,
            engine.searches() == 0,
    {
        SearchEngine {
            searcher: start_search(table_bytes, threads),
            book: Book {
                table_bytes,
                threads,
                max_depth: DEFAULT_DEPTH,
                depth_given: false,
                searches: 0,
            },
        }
    }

    /// The depth to which the search looks.
    pub fn max_depth(&self) -> (depth: u8)
        ensures
            depth == self.depth(),
            depth <= MAX_DEPTH,
    {
        proof {
            use_type_invariant(self);
        }
        self.book.max_depth
    }

    /// The size that was asked for the table of the search, in bytes.
    pub fn table_byte_size(&self) -> (bytes: usize)
        ensures
            bytes == self.table_bytes(),
    {
        proof {
            use_type_invariant(self);
        }
        self.book.table_bytes
    }

    /// The number of worker threads that was asked for the search.
    pub fn num_threads(&self) -> (threads: usize)
        ensures
            threads == self.threads(),
    {
        proof {
            use_type_invariant(self);
        }
        self.book.threads
    }

    /// The engine's count of the searches on the present table.
    pub fn searches_made(&self) -> (count: usize)
        ensures
            count == self.searches(),
            count <= SEARCHES_PER_TABLE,
    {
        proof {
            use_type_invariant(self);
        }
        self.book.searches
    }

    /// Sets the depth for the searches that follow, and switches the time
    /// limit of the search off. The table stays as it is.
    pub fn set_max_depth(&mut self, depth: u8)
        requires
            depth <= MAX_DEPTH,
        ensures
            final(self).depth() == depth,
            final(self).table_bytes() == old(self).table_bytes(),
            final(self).threads() == old(self).threads(),
            final(self).searches() == old(self).searches(),
    {
        proof {
            use_type_invariant(&*self);
        }
        hand_depth(&mut self.searcher, &mut self.book, depth);
    }

    /// Starts a new table: the search is built again as the engine was built,
    /// and is given the depth again if one was set.
    fn renew(&mut self)
        ensures
            final(self).depth() == old(self).depth(),
            final(self).table_bytes() == old(self).table_bytes(),
            final(self).threads() == old(self).threads(),
            final(self).searches() == 0,
    {
        proof {
            use_type_invariant(&*self);
        }
        let mut searcher = start_search(self.book.table_bytes, self.book.threads);
        if self.book.depth_given {
            push_depth(&mut searcher, self.book.max_depth);
        }
        self.searcher = searcher;
        self.book.searches = 0;
    }

    /// Searches for the player's best move on `board`, which it leaves as it
    /// is. There is none where no swipe changes the board: so on a full board
    /// without two equal neighbours. The search's answer is vetted by
    /// `vet_move`: a swipe is answered only where it changes the board.
    ///
    /// The table of positions is kept from search to search. Once it has
    /// served `SEARCHES_PER_TABLE` searches, the next search starts on a new
    /// one.
    pub fn choose_move(&mut self, board: &Board) -> (found: Option<Moves>)
        ensures
            stuck(board@) ==> found is None,
            gapless(board@) && no_equal_pair(board@) ==> found is None,
            found matches Some(Moves::Player(swipe)) ==> moves_board(board@, swipe),
            final(self).depth() == old(self).depth(),
            final(self).table_bytes() == old(self).table_bytes(),
            final(self).threads() == old(self).threads(),
            final(self).searches() == searches_after(old(self).searches()),
    {
        proof {
            use_type_invariant(board);
            if gapless(board@) && no_equal_pair(board@) {
                lemma_full_board_without_pair_is_stuck(board@);
            }
        }
        if self.book.searches >= SEARCHES_PER_TABLE {
            self.renew();
        }
        proof {
            use_type_invariant(&*self);
        }
        let position = Position::players_turn(board);
        self.book.searches = self.book.searches + 1;
        let answer = run_search(&mut self.searcher, &position);
        vet_move(board, answer)
    }
}

/// The count of searches on the present table after one more search: a full
/// table gives way to a new one, which then has served this one search.
pub open spec fn searches_after(searches: usize) -> usize {
    if searches >= SEARCHES_PER_TABLE {
        1
    } else {
        (searches + 1) as usize
    }
}

/// What is kept of the search's answer for a board. The table of positions is
/// shared by all searches, and an entry of another position may be taken for
/// this one: a swipe that changes nothing on this board is no answer. A move
/// of the computer is kept as it is, for `player_swipe` to refuse.
pub open spec fn vetted(cells: Seq<nat>, answer: Option<Moves>) -> Option<Moves> {
    match answer {
        Some(Moves::Player(swipe)) => if moves_board(cells, swipe) {
            answer
        } else {
            None
        },
        _ => answer,
    }
}

/// Holds the search's answer against the board: a swipe is kept only where it
/// changes the board.
pub fn vet_move(board: &Board, answer: Option<Moves>) -> (found: Option<Moves>)
    ensures
        found == vetted(board@, answer),
{
    match answer {
        Some(Moves::Player(swipe)) => if board.can_swipe(swipe) {
            answer
        } else {
            None
        },
        _ => answer,
    }
}

} // verus!
