use twenty_forty_eight::board::{Board, Moves, Placement, Swipe};
use twenty_forty_eight::evaluators::evaluate;
use twenty_forty_eight::search::{
    cap_depth, player_swipe, vet_move, SearchEngine, WrongPlayersTurn, DEFAULT_DEPTH, MAX_DEPTH,
    SEARCHES_PER_TABLE,
};

fn engine(depth: u8) -> SearchEngine {
    let mut engine = SearchEngine::new(1 << 16, 2);
    engine.set_max_depth(depth);
    engine
}

fn board(rows: [[u32; 4]; 4]) -> Board {
    Board::from_cells(rows).expect("a valid board")
}

#[test]
fn a_new_engine_keeps_what_it_was_built_with() {
    let mut engine = SearchEngine::new(12_345, 3);
    assert_eq!(engine.table_byte_size(), 12_345);
    assert_eq!(engine.num_threads(), 3);
    assert_eq!(engine.searches_made(), 0);
    engine.set_max_depth(2);
    let b = board([[2, 2, 0, 0], [0; 4], [0; 4], [0; 4]]);
    assert!(engine.choose_move(&b).is_some());
    assert_eq!(engine.table_byte_size(), 12_345);
    assert_eq!(engine.num_threads(), 3);
    assert_eq!(engine.max_depth(), 2);
    assert_eq!(engine.searches_made(), 1);
    let machine = SearchEngine::new(0, 0);
    assert_eq!(machine.table_byte_size(), 0);
    assert_eq!(machine.num_threads(), 0);
}

#[test]
fn a_new_engine_has_the_default_depth() {
    let mut engine = SearchEngine::new(1 << 16, 1);
    assert_eq!(engine.max_depth(), DEFAULT_DEPTH);
    assert_eq!(engine.max_depth(), 99);
    engine.set_max_depth(3);
    assert_eq!(engine.max_depth(), 3);
    engine.set_max_depth(0);
    assert_eq!(engine.max_depth(), 0);
}

#[test]
fn no_move_on_a_stuck_board() {
    let stuck = board([[2, 4, 2, 4], [4, 2, 4, 2], [2, 4, 2, 4], [4, 2, 4, 2]]);
    for depth in [1, 2, 4] {
        assert_eq!(engine(depth).choose_move(&stuck), None);
    }
    assert_eq!(engine(2).choose_move(&Board::new()), None);
}

#[test]
fn one_of_the_legal_swipes_is_chosen() {
    let tight = board([[2, 4, 8, 16], [4, 8, 16, 32], [8, 16, 32, 64], [32, 32, 64, 128]]);
    assert_eq!(tight.legal_swipes(), vec![Swipe::Left, Swipe::Right]);
    for depth in [1, 2, 3] {
        let found = engine(depth).choose_move(&tight);
        assert!(
            found == Some(Moves::Player(Swipe::Left)) || found == Some(Moves::Player(Swipe::Right))
        );
    }
}

#[test]
fn depth_one_takes_the_best_scoring_swipe() {
    let boards = [
        [[2, 2, 0, 0], [0; 4], [0; 4], [0; 4]],
        [[2, 0, 0, 2], [0, 4, 0, 0], [0, 0, 8, 0], [16, 0, 0, 0]],
        [[2, 4, 8, 16], [0, 0, 0, 16], [0, 2, 0, 0], [0, 0, 0, 2]],
        [[4, 4, 2, 2], [8, 0, 8, 0], [2, 4, 8, 16], [0, 0, 2, 2]],
        [[0, 0, 0, 0], [0, 0, 0, 0], [0, 0, 2, 0], [0, 0, 0, 2]],
    ];
    for rows in boards {
        let b = board(rows);
        let mut best = i16::MIN;
        for swipe in b.legal_swipes() {
            let mut after = b;
            assert!(after.swipe(swipe));
            best = best.max(evaluate(&after));
        }
        let found = engine(1).choose_move(&b);
        match found {
            Some(Moves::Player(swipe)) => {
                let mut after = b;
                assert!(after.swipe(swipe));
                assert_eq!(evaluate(&after), best);
            }
            other => panic!("no swipe but {:?}", other),
        }
        assert_eq!(b.cells(), rows);
    }
}

#[test]
fn a_deeper_search_still_answers_with_a_legal_swipe() {
    let b = board([[2, 2, 4, 8], [0, 4, 0, 2], [0, 0, 2, 0], [0, 0, 0, 0]]);
    let mut engine = engine(3);
    for _ in 0..3 {
        match engine.choose_move(&b) {
            Some(Moves::Player(swipe)) => assert!(b.can_swipe(swipe)),
            other => panic!("no swipe but {:?}", other),
        }
    }
}

#[test]
fn the_answer_is_read_as_the_players_swipe() {
    assert_eq!(player_swipe(None), Ok(None));
    assert_eq!(player_swipe(Some(Moves::Player(Swipe::Up))), Ok(Some(Swipe::Up)));
    assert_eq!(player_swipe(Some(Moves::Player(Swipe::Right))), Ok(Some(Swipe::Right)));
    assert_eq!(
        player_swipe(Some(Moves::Computer(Placement { row: 0, col: 0, value: 2 }))),
        Err(WrongPlayersTurn)
    );
}

#[test]
fn an_answer_is_held_against_the_board() {
    let b = board([[2, 4, 0, 0], [0; 4], [0; 4], [0; 4]]);
    assert_eq!(vet_move(&b, None), None);
    assert_eq!(vet_move(&b, Some(Moves::Player(Swipe::Right))), Some(Moves::Player(Swipe::Right)));
    assert_eq!(vet_move(&b, Some(Moves::Player(Swipe::Down))), Some(Moves::Player(Swipe::Down)));
    assert_eq!(vet_move(&b, Some(Moves::Player(Swipe::Left))), None);
    assert_eq!(vet_move(&b, Some(Moves::Player(Swipe::Up))), None);
    let placed = Moves::Computer(Placement { row: 0, col: 0, value: 2 });
    assert_eq!(vet_move(&b, Some(placed)), Some(placed));
    let stuck = board([[2, 4, 2, 4], [4, 2, 4, 2], [2, 4, 2, 4], [4, 2, 4, 2]]);
    for swipe in [Swipe::Up, Swipe::Down, Swipe::Left, Swipe::Right] {
        assert_eq!(vet_move(&stuck, Some(Moves::Player(swipe))), None);
    }
}

fn legal_answer(engine: &mut SearchEngine, b: &Board) {
    match engine.choose_move(b) {
        Some(Moves::Player(swipe)) => assert!(b.can_swipe(swipe)),
        other => panic!("no swipe but {:?}", other),
    }
}

#[test]
fn a_table_serves_its_searches_and_gives_way() {
    assert_eq!(SEARCHES_PER_TABLE, 256);
    // a table of four slots
    let mut engine = SearchEngine::new(200, 2);
    let deep = board([[2, 2, 4, 8], [0, 4, 0, 2], [0, 0, 2, 0], [0, 0, 0, 0]]);
    engine.set_max_depth(4);
    legal_answer(&mut engine, &deep);
    assert_eq!(engine.searches_made(), 1);
    engine.set_max_depth(1);
    let fixed = board([[0, 0, 0, 0], [0, 0, 0, 0], [0, 0, 2, 0], [0, 0, 0, 2]]);
    for made in 1..SEARCHES_PER_TABLE {
        legal_answer(&mut engine, &fixed);
        assert_eq!(engine.searches_made(), made + 1);
    }
    assert_eq!(engine.searches_made(), SEARCHES_PER_TABLE);
    // the next search starts a new table, with the depth that was set
    let mut rows = [[0u32; 4]; 4];
    for step in 0..300 {
        rows[step % 4][(step / 4) % 4] = 2 << (step % 7);
        let b = board(rows);
        if !b.is_stuck() {
            let before = engine.searches_made();
            legal_answer(&mut engine, &b);
            let expected = if before == SEARCHES_PER_TABLE { 1 } else { before + 1 };
            assert_eq!(engine.searches_made(), expected);
        }
    }
    assert_eq!(engine.max_depth(), 1);
    assert_eq!(engine.table_byte_size(), 200);
    assert_eq!(engine.num_threads(), 2);
}

#[test]
fn a_table_of_one_slot_serves_deep_and_shallow_searches() {
    let mut engine = SearchEngine::new(0, 1);
    let b = board([[2, 2, 4, 8], [0, 4, 0, 2], [0, 0, 2, 0], [0, 0, 0, 0]]);
    for round in 0..3 {
        engine.set_max_depth(3);
        legal_answer(&mut engine, &b);
        engine.set_max_depth(1);
        for _ in 0..260 {
            legal_answer(&mut engine, &b);
        }
        assert!(engine.searches_made() <= SEARCHES_PER_TABLE, "round {}", round);
    }
}

#[test]
fn the_depth_is_capped_below_what_eight_bits_hold() {
    assert_eq!(MAX_DEPTH, 254);
    assert_eq!(cap_depth(0), 0);
    assert_eq!(cap_depth(1), 1);
    assert_eq!(cap_depth(99), 99);
    assert_eq!(cap_depth(254), 254);
    assert_eq!(cap_depth(255), 254);
    let mut engine = SearchEngine::new(1 << 12, 1);
    engine.set_max_depth(MAX_DEPTH);
    assert_eq!(engine.max_depth(), 254);
    let stuck = board([[2, 4, 2, 4], [4, 2, 4, 2], [2, 4, 2, 4], [4, 2, 4, 2]]);
    assert_eq!(engine.choose_move(&stuck), None);
    assert_eq!(engine.searches_made(), 1);
}
