use twenty_forty_eight::board::{
    is_tile_value, tile_for, Board, Moves, Placement, Swipe, FOUR_ODDS,
};

fn board(rows: [[u32; 4]; 4]) -> Board {
    Board::from_cells(rows).expect("a valid board")
}

fn row(cells: [u32; 4]) -> Board {
    board([cells, [0; 4], [0; 4], [0; 4]])
}

fn swiped_row(cells: [u32; 4], direction: Swipe) -> [u32; 4] {
    let mut b = row(cells);
    b.swipe(direction);
    let after = b.cells();
    assert_eq!(after[1], [0; 4]);
    assert_eq!(after[2], [0; 4]);
    assert_eq!(after[3], [0; 4]);
    after[0]
}

const CHECKERED: [[u32; 4]; 4] = [[2, 4, 2, 4], [4, 2, 4, 2], [2, 4, 2, 4], [4, 2, 4, 2]];

#[test]
fn new_board_is_empty() {
    let b = Board::new();
    assert_eq!(b.cells(), [[0; 4]; 4]);
    assert_eq!(b.tile_count(), 0);
    assert_eq!(b.free_count(), 16);
    assert_eq!(b.tile_sum(), 0);
    assert_eq!(b.max_tile(), 0);
    assert!(!b.is_full());
}

#[test]
fn from_cells_keeps_the_cells() {
    let rows = [[2, 0, 0, 4], [0, 8, 0, 0], [0, 0, 16, 0], [2048, 0, 0, 65536]];
    let b = board(rows);
    assert_eq!(b.cells(), rows);
    assert_eq!(b.get(0, 0), 2);
    assert_eq!(b.get(0, 3), 4);
    assert_eq!(b.get(3, 0), 2048);
    assert_eq!(b.get(3, 3), 65536);
    assert_eq!(b.get(1, 0), 0);
    assert_eq!(b.tile_count(), 6);
    assert_eq!(b.free_count(), 10);
    assert_eq!(b.tile_sum(), 2 + 4 + 8 + 16 + 2048 + 65536);
    assert_eq!(b.max_tile(), 65536);
}

#[test]
fn from_cells_refuses_what_is_no_tile() {
    for bad in [1u32, 3, 5, 6, 7, 12, 100, 0xffff_ffff] {
        let mut rows = [[0u32; 4]; 4];
        rows[2][1] = bad;
        assert!(Board::from_cells(rows).is_none(), "{} is no tile", bad);
    }
}

#[test]
fn from_cells_refuses_a_sum_beyond_32_bits() {
    let top = 1u32 << 31;
    let mut rows = [[0u32; 4]; 4];
    rows[0][0] = top;
    assert!(Board::from_cells(rows).is_some());
    rows[3][3] = top;
    assert!(Board::from_cells(rows).is_none());
}

#[test]
fn tile_values_are_powers_of_two_from_two_up() {
    assert!(!is_tile_value(0));
    assert!(!is_tile_value(1));
    assert!(is_tile_value(2));
    assert!(!is_tile_value(3));
    assert!(is_tile_value(4));
    assert!(!is_tile_value(6));
    assert!(is_tile_value(2048));
    assert!(!is_tile_value(2049));
    assert!(is_tile_value(1 << 31));
    assert!(!is_tile_value(u32::MAX));
}

#[test]
fn swipe_left_merges_the_pair() {
    let mut b = row([2, 2, 0, 0]);
    assert!(b.swipe(Swipe::Left));
    assert_eq!(b.cells(), [[4, 0, 0, 0], [0; 4], [0; 4], [0; 4]]);
    let merged = b;
    assert!(b.computer_move());
    assert_eq!(b.tile_count(), 2);
    assert_eq!(b.get(0, 0), 4);
    let mut fresh = 0;
    for r in 0..4 {
        for c in 0..4 {
            if b.get(r, c) != merged.get(r, c) {
                assert_eq!(merged.get(r, c), 0);
                assert!(b.get(r, c) == 2 || b.get(r, c) == 4);
                assert!((r, c) != (0, 0));
                fresh += 1;
            }
        }
    }
    assert_eq!(fresh, 1);
}

#[test]
fn tiles_slide_to_the_edge() {
    assert_eq!(swiped_row([0, 0, 0, 2], Swipe::Left), [2, 0, 0, 0]);
    assert_eq!(swiped_row([0, 2, 0, 4], Swipe::Left), [2, 4, 0, 0]);
    assert_eq!(swiped_row([2, 0, 0, 0], Swipe::Right), [0, 0, 0, 2]);
    assert_eq!(swiped_row([2, 0, 4, 0], Swipe::Right), [0, 0, 2, 4]);
}

#[test]
fn equal_neighbours_merge_once_and_edge_first() {
    assert_eq!(swiped_row([2, 2, 2, 2], Swipe::Left), [4, 4, 0, 0]);
    assert_eq!(swiped_row([2, 2, 2, 0], Swipe::Left), [4, 2, 0, 0]);
    assert_eq!(swiped_row([2, 2, 2, 0], Swipe::Right), [0, 0, 2, 4]);
    assert_eq!(swiped_row([2, 2, 4, 0], Swipe::Left), [4, 4, 0, 0]);
    assert_eq!(swiped_row([4, 2, 2, 0], Swipe::Left), [4, 4, 0, 0]);
    assert_eq!(swiped_row([2, 0, 2, 4], Swipe::Left), [4, 4, 0, 0]);
    assert_eq!(swiped_row([4, 4, 8, 8], Swipe::Right), [0, 0, 8, 16]);
    assert_eq!(swiped_row([2, 4, 2, 4], Swipe::Left), [2, 4, 2, 4]);
    assert_eq!(swiped_row([8, 0, 0, 8], Swipe::Left), [16, 0, 0, 0]);
}

#[test]
fn columns_move_up_and_down() {
    let mut b = board([[2, 0, 0, 4], [2, 0, 0, 0], [4, 0, 8, 4], [4, 0, 8, 2]]);
    let mut up = b;
    assert!(up.swipe(Swipe::Up));
    assert_eq!(up.cells(), [[4, 0, 16, 8], [8, 0, 0, 2], [0; 4], [0; 4]]);
    assert!(b.swipe(Swipe::Down));
    assert_eq!(b.cells(), [[0; 4], [0; 4], [4, 0, 0, 8], [8, 0, 16, 2]]);
}

#[test]
fn a_swipe_that_moves_nothing_reports_false() {
    let mut b = row([2, 4, 0, 0]);
    let before = b;
    assert!(!b.swipe(Swipe::Left));
    assert_eq!(b, before);
    assert!(!b.swipe(Swipe::Up));
    assert_eq!(b, before);
    assert!(!b.can_swipe(Swipe::Left));
    assert!(b.can_swipe(Swipe::Right));
    assert!(b.can_swipe(Swipe::Down));
}

#[test]
fn second_swipe_after_a_settled_one_changes_nothing() {
    for direction in [Swipe::Up, Swipe::Down, Swipe::Left, Swipe::Right] {
        let mut b = board([[2, 0, 2, 8], [0, 4, 0, 4], [16, 0, 0, 2], [0, 0, 32, 0]]);
        assert!(b.swipe(direction));
        let once = b;
        assert!(!b.swipe(direction));
        assert_eq!(b, once);
    }
}

#[test]
fn second_swipe_merges_what_the_first_brought_together() {
    let mut b = row([2, 2, 4, 0]);
    assert!(b.swipe(Swipe::Left));
    assert_eq!(b.cells()[0], [4, 4, 0, 0]);
    assert!(b.swipe(Swipe::Left));
    assert_eq!(b.cells()[0], [8, 0, 0, 0]);
    assert!(!b.swipe(Swipe::Left));
}

#[test]
fn a_swipe_keeps_the_sum_of_the_tiles() {
    let start = board([[2, 2, 4, 4], [8, 0, 8, 0], [2, 4, 8, 16], [0, 0, 2, 2]]);
    for direction in [Swipe::Up, Swipe::Down, Swipe::Left, Swipe::Right] {
        let mut b = start;
        assert!(b.swipe(direction));
        assert_eq!(b.tile_sum(), start.tile_sum());
    }
    let mut b = start;
    assert_eq!(start.merge_score(Swipe::Left), 4 + 8 + 16 + 4);
    b.swipe(Swipe::Left);
    assert_eq!(b.cells(), [[4, 8, 0, 0], [16, 0, 0, 0], [2, 4, 8, 16], [4, 0, 0, 0]]);
    assert_eq!(b.tile_count(), start.tile_count() - 4);
}

#[test]
fn merge_score_counts_the_new_tiles() {
    assert_eq!(row([2, 2, 2, 2]).merge_score(Swipe::Left), 8);
    assert_eq!(row([2, 2, 4, 0]).merge_score(Swipe::Left), 4);
    assert_eq!(row([2, 4, 8, 16]).merge_score(Swipe::Left), 0);
    assert_eq!(row([0, 0, 0, 2]).merge_score(Swipe::Left), 0);
    assert_eq!(row([2, 2, 2, 2]).merge_score(Swipe::Up), 0);
    assert_eq!(board([[1024, 0, 0, 0], [1024, 0, 0, 0], [0; 4], [0; 4]]).merge_score(Swipe::Down), 2048);
}

#[test]
fn add_random_fills_one_empty_cell() {
    for _ in 0..200 {
        let before = board([[2, 0, 4, 0], [0, 8, 0, 0], [0, 0, 0, 16], [2, 0, 0, 0]]);
        let mut b = before;
        assert!(b.add_random());
        assert_eq!(b.tile_count(), before.tile_count() + 1);
        let mut fresh = 0;
        for r in 0..4 {
            for c in 0..4 {
                if b.get(r, c) != before.get(r, c) {
                    assert_eq!(before.get(r, c), 0);
                    assert!(b.get(r, c) == 2 || b.get(r, c) == 4);
                    fresh += 1;
                }
            }
        }
        assert_eq!(fresh, 1);
    }
}

#[test]
fn add_random_finds_the_last_empty_cell() {
    for _ in 0..50 {
        let mut rows = CHECKERED;
        rows[2][1] = 0;
        let mut b = board(rows);
        assert!(b.add_random());
        assert!(b.is_full());
        assert!(b.get(2, 1) == 2 || b.get(2, 1) == 4);
        rows[2][1] = b.get(2, 1);
        assert_eq!(b.cells(), rows);
    }
}

#[test]
fn add_random_leaves_a_full_board_alone() {
    let mut b = board(CHECKERED);
    assert!(!b.add_random());
    assert_eq!(b.cells(), CHECKERED);
    assert!(!b.computer_move());
    assert_eq!(b.cells(), CHECKERED);
}

#[test]
fn add_random_places_both_values() {
    let mut twos = 0;
    let mut fours = 0;
    for _ in 0..2000 {
        let mut b = Board::new();
        assert!(b.add_random());
        match b.tile_sum() {
            2 => twos += 1,
            4 => fours += 1,
            other => panic!("a new tile of {}", other),
        }
    }
    assert!(twos > fours);
    assert!(fours > 0);
}

#[test]
fn place_in_free_counts_the_empty_cells() {
    let rows = [[2, 0, 4, 0], [0, 8, 0, 0], [0; 4], [0; 4]];
    let mut b = board(rows);
    assert_eq!(b.place_in_free(0, 2), Some(1));
    assert_eq!(b.cells()[0], [2, 2, 4, 0]);
    let mut b = board(rows);
    assert_eq!(b.place_in_free(2, 4), Some(4));
    assert_eq!(b.cells()[1], [4, 8, 0, 0]);
    let mut b = board(rows);
    assert_eq!(b.place_in_free(12, 2), Some(15));
    assert_eq!(b.cells()[3], [0, 0, 0, 2]);
    let mut b = board(rows);
    assert_eq!(b.place_in_free(13, 2), None);
    assert_eq!(b.cells(), rows);
    assert_eq!(b.place_in_free(0, 8), None);
    assert_eq!(b.place_in_free(0, 0), None);
    assert_eq!(b.cells(), rows);
}

#[test]
fn place_takes_a_two_or_a_four_on_an_empty_cell() {
    let rows = [[2, 0, 0, 0], [0; 4], [0; 4], [0; 4]];
    let mut b = board(rows);
    assert!(!b.place(Placement { row: 0, col: 0, value: 2 }));
    assert!(!b.place(Placement { row: 1, col: 1, value: 8 }));
    assert!(!b.place(Placement { row: 1, col: 1, value: 0 }));
    assert!(!b.place(Placement { row: 4, col: 1, value: 2 }));
    assert!(!b.place(Placement { row: 1, col: 4, value: 2 }));
    assert_eq!(b.cells(), rows);
    assert!(b.place(Placement { row: 1, col: 2, value: 4 }));
    assert_eq!(b.cells(), [[2, 0, 0, 0], [0, 0, 4, 0], [0; 4], [0; 4]]);
}

#[test]
fn placements_are_two_for_each_empty_cell() {
    let mut rows = CHECKERED;
    rows[0][1] = 0;
    rows[3][3] = 0;
    let list = board(rows).placements();
    assert_eq!(
        list,
        vec![
            Placement { row: 0, col: 1, value: 2 },
            Placement { row: 0, col: 1, value: 4 },
            Placement { row: 3, col: 3, value: 2 },
            Placement { row: 3, col: 3, value: 4 },
        ]
    );
    assert!(board(CHECKERED).placements().is_empty());
    assert_eq!(Board::new().placements().len(), 32);
}

#[test]
fn legal_swipes_are_those_that_change_the_board() {
    assert_eq!(row([2, 4, 0, 0]).legal_swipes(), vec![Swipe::Down, Swipe::Right]);
    assert_eq!(
        board([[0; 4], [0, 2, 0, 0], [0; 4], [0; 4]]).legal_swipes(),
        vec![Swipe::Up, Swipe::Down, Swipe::Left, Swipe::Right]
    );
    assert!(board(CHECKERED).legal_swipes().is_empty());
    assert!(Board::new().legal_swipes().is_empty());
    let mut rows = CHECKERED;
    rows[0] = [8, 8, 2, 4];
    assert_eq!(board(rows).legal_swipes(), vec![Swipe::Left, Swipe::Right]);
}

#[test]
fn a_full_board_without_equal_neighbours_is_stuck() {
    let b = board(CHECKERED);
    assert!(b.is_full());
    assert!(b.is_stuck());
    for direction in [Swipe::Up, Swipe::Down, Swipe::Left, Swipe::Right] {
        let mut after = b;
        assert!(!after.swipe(direction));
        assert_eq!(after.cells(), CHECKERED);
    }
    let mut rows = CHECKERED;
    rows[3][3] = 4;
    assert!(!board(rows).is_stuck());
}

#[test]
fn the_game_is_over_on_a_full_board_without_a_pair() {
    assert!(board(CHECKERED).is_game_over());
    let mut rows = CHECKERED;
    rows[1][2] = 2;
    assert!(!board(rows).is_game_over());
    rows = CHECKERED;
    rows[1][2] = 0;
    assert!(!board(rows).is_game_over());
    assert!(!Board::new().is_game_over());
    assert!(Board::new().is_stuck());
}

#[test]
fn a_blocked_direction_leaves_the_board_unchanged() {
    let rows = [[2, 4, 8, 16], [2, 4, 8, 16], [4, 8, 16, 32], [8, 16, 32, 64]];
    let mut b = board(rows);
    assert!(!b.swipe(Swipe::Left));
    assert_eq!(b.cells(), rows);
    assert!(!b.swipe(Swipe::Right));
    assert_eq!(b.cells(), rows);
    assert!(b.swipe(Swipe::Up));
    assert_eq!(b.cells(), [[4, 8, 16, 32], [4, 8, 16, 32], [8, 16, 32, 64], [0; 4]]);
}

#[test]
fn apply_move_serves_both_sides() {
    let mut b = row([2, 2, 0, 0]);
    assert!(b.apply_move(Moves::Player(Swipe::Right)));
    assert_eq!(b.cells()[0], [0, 0, 0, 4]);
    assert!(!b.apply_move(Moves::Player(Swipe::Right)));
    assert!(b.apply_move(Moves::Computer(Placement { row: 2, col: 2, value: 2 })));
    assert_eq!(b.get(2, 2), 2);
    assert!(!b.apply_move(Moves::Computer(Placement { row: 2, col: 2, value: 4 })));
    assert_eq!(b.get(2, 2), 2);
}

#[test]
fn the_largest_tiles_still_merge() {
    let half = 1u32 << 30;
    let mut b = row([half, half, 0, 0]);
    assert!(b.swipe(Swipe::Left));
    assert_eq!(b.cells()[0], [1 << 31, 0, 0, 0]);
    assert!(b.add_random());
    assert_eq!(b.tile_count(), 2);
}

#[test]
fn a_copy_is_independent() {
    let first = row([2, 2, 0, 0]);
    let mut copy = first.clone();
    assert!(copy.swipe(Swipe::Left));
    assert_eq!(first.cells()[0], [2, 2, 0, 0]);
    assert_ne!(copy, first);
}

#[test]
fn one_draw_in_ten_gives_a_four() {
    assert_eq!(FOUR_ODDS, 10);
    assert_eq!(tile_for(0), 4);
    for draw in 1..FOUR_ODDS {
        assert_eq!(tile_for(draw), 2);
    }
    assert_eq!(tile_for(u32::MAX), 2);
}

#[test]
fn the_draws_decide_the_new_tile() {
    let rows = [[2, 0, 4, 0], [0, 8, 0, 0], [0; 4], [0; 4]];
    let mut b = board(rows);
    assert_eq!(b.place_drawn(0, 0), Some(1));
    assert_eq!(b.cells()[0], [2, 4, 4, 0]);
    let mut b = board(rows);
    assert_eq!(b.place_drawn(0, 1), Some(1));
    assert_eq!(b.cells()[0], [2, 2, 4, 0]);
    let mut b = board(rows);
    assert_eq!(b.place_drawn(1, 9), Some(3));
    assert_eq!(b.cells()[0], [2, 0, 4, 2]);
    let mut b = board(rows);
    assert_eq!(b.place_drawn(3, 0), Some(6));
    assert_eq!(b.cells()[1], [0, 8, 4, 0]);
    let mut b = board(rows);
    assert_eq!(b.place_drawn(12, 5), Some(15));
    assert_eq!(b.cells()[3], [0, 0, 0, 2]);
    let mut b = board(rows);
    assert_eq!(b.place_drawn(13, 0), None);
    assert_eq!(b.place_drawn(u32::MAX, 0), None);
    assert_eq!(b.cells(), rows);
    let mut full = board(CHECKERED);
    assert_eq!(full.place_drawn(0, 0), None);
    assert_eq!(full.cells(), CHECKERED);
}
