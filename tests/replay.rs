use zikzakzoo::{Board, Cell, SimpleRNG, play_round, verify_player_win};

#[test]
fn seed_alone_is_no_win() {
    assert!(!verify_player_win("7"));
    assert!(!verify_player_win("0"));
    assert!(!verify_player_win("18446744073709551615"));
}

#[test]
fn malformed_seed_is_no_win() {
    assert!(!verify_player_win("abc,4"));
    assert!(!verify_player_win(",4"));
    assert!(!verify_player_win("-1,4"));
    assert!(!verify_player_win("18446744073709551616,4"));
    assert!(!verify_player_win(""));
}

#[test]
fn invalid_move_token_ends_replay() {
    assert!(!verify_player_win("7,10,0,1,2"));
    assert!(!verify_player_win("7,0,x,1,2"));
    assert!(!verify_player_win("7,0,,1,2"));
    assert!(!verify_player_win("7,-0,1,2"));
}

#[test]
fn tokens_after_the_win_are_ignored() {
    assert!(verify_player_win("7,0,1,2,99"));
    assert!(verify_player_win("7,0,1,2,abc"));
}

#[test]
fn plus_signs_are_accepted() {
    assert!(verify_player_win("+7,0,1,2"));
    assert!(verify_player_win("7,+0,1,2"));
}

#[test]
fn verification_is_deterministic() {
    for input in ["7,0,1,2", "7,5", "1,2,3,4,7,0", "abc"] {
        assert_eq!(verify_player_win(input), verify_player_win(input));
    }
}

#[test]
fn move_onto_computer_cell_is_illegal() {
    // With seed 1 the computer answers a move at 4 by taking 5.
    let mut board = Board::new();
    let mut rng = SimpleRNG::new(1);
    assert_eq!(play_round(&mut board, &mut rng, 4), None);
    assert_eq!(board.cells[5], Cell::K);
    assert!(!verify_player_win("1,4,5"));
}

#[test]
fn generator_first_value() {
    let mut rng = SimpleRNG::new(1);
    assert_eq!(rng.next(), 7806831264735756412);
    assert_eq!(rng.state, 7806831264735756412);
}

#[test]
fn generator_is_reproducible() {
    let mut a = SimpleRNG::new(7);
    let mut b = SimpleRNG::new(7);
    for n in 1..9usize {
        assert_eq!(a.rand_range(0, n - 1), b.rand_range(0, n - 1));
    }
    assert_eq!(a.state, b.state);
}

#[test]
fn rand_range_formula() {
    let mut rng = SimpleRNG::new(1);
    // 7806831264735756412 % 8 == 4
    assert_eq!(rng.rand_range(0, 7), 4);
    let mut rng = SimpleRNG::new(1);
    // 7806831264735756412 % 3 + 5
    assert_eq!(rng.rand_range(5, 7), (7806831264735756412u64 % 3) as usize + 5);
}

#[test]
fn scenario_top_row_win() {
    assert!(verify_player_win("7,0,1,2"));
}

#[test]
fn scenario_single_move_unresolved() {
    assert!(!verify_player_win("7,5"));
}

#[test]
fn scenario_non_numeric_seed() {
    assert!(!verify_player_win("abc,0,1,2"));
}

#[test]
fn scenario_move_out_of_range() {
    assert!(!verify_player_win("1,9"));
}

#[test]
fn full_board_is_a_draw() {
    assert!(!verify_player_win("1,2,3,4,7,0"));
    assert!(!verify_player_win("1,2,3,4,7,0,8"));
    assert!(!verify_player_win("2,0,1,5,6,7"));
}

#[test]
fn play_round_reports_the_win() {
    let mut board = Board::new();
    let mut rng = SimpleRNG::new(7);
    assert_eq!(play_round(&mut board, &mut rng, 0), None);
    assert_eq!(board.cells[3], Cell::K);
    assert_eq!(play_round(&mut board, &mut rng, 1), None);
    assert_eq!(board.cells[6], Cell::K);
    assert_eq!(play_round(&mut board, &mut rng, 2), Some(true));
}

#[test]
fn play_round_rejects_taken_cell() {
    let mut board = Board::new();
    let mut rng = SimpleRNG::new(7);
    assert_eq!(play_round(&mut board, &mut rng, 0), None);
    let state = rng.state;
    assert_eq!(play_round(&mut board, &mut rng, 0), Some(false));
    assert_eq!(rng.state, state);
}

#[test]
fn rand_range_at_the_top_of_usize() {
    let mut rng = SimpleRNG::new(1);
    assert_eq!(rng.rand_range(usize::MAX, usize::MAX), usize::MAX);
    assert_eq!(rng.state, 7806831264735756412);
    let mut rng = SimpleRNG::new(1);
    let r = rng.rand_range(1, usize::MAX);
    assert_eq!(r as u64, 7806831264735756412u64 % (usize::MAX as u64) + 1);
}

#[test]
fn one_value_draw_still_advances() {
    let mut rng = SimpleRNG::new(1);
    assert_eq!(rng.rand_range(3, 3), 3);
    assert_eq!(rng.state, 7806831264735756412);
}

#[test]
fn second_move_onto_computer_cell() {
    // Seed 7 answers a move at 0 with the computer on 3.
    assert!(!verify_player_win("7,0,3"));
    assert!(!verify_player_win("7,0,3,1,2"));
}
