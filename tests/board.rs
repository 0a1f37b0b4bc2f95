use zikzakzoo::{Board, Cell, SimpleRNG, Turn, apply_turn, get_computer_move, human_move};

#[test]
fn new_board_is_empty() {
    let board = Board::new();
    assert!(board.cells.iter().all(|c| *c == Cell::Empty));
    assert_eq!(board.get_empty_cells(), vec![0, 1, 2, 3, 4, 5, 6, 7, 8]);
    assert!(!board.is_full());
    assert_eq!(board.check_winner(), None);
}

#[test]
fn make_move_checks_the_cell() {
    let mut board = Board::new();
    assert!(board.make_move(4, Cell::Z));
    assert!(!board.make_move(4, Cell::K));
    assert!(!board.make_move(9, Cell::K));
    assert_eq!(board.cells[4], Cell::Z);
    assert_eq!(board.get_empty_cells(), vec![0, 1, 2, 3, 5, 6, 7, 8]);
}

#[test]
fn every_line_wins() {
    let lines = [
        [0, 1, 2], [3, 4, 5], [6, 7, 8],
        [0, 3, 6], [1, 4, 7], [2, 5, 8],
        [0, 4, 8], [2, 4, 6],
    ];
    for line in lines {
        let mut board = Board::new();
        for p in line {
            assert!(board.make_move(p, Cell::K));
        }
        assert_eq!(board.check_winner(), Some(Cell::K));
    }
}

#[test]
fn two_in_a_row_is_no_win() {
    let mut board = Board::new();
    board.make_move(0, Cell::Z);
    board.make_move(1, Cell::Z);
    board.make_move(2, Cell::K);
    assert_eq!(board.check_winner(), None);
}

#[test]
fn full_board_has_no_empty_cells() {
    let mut board = Board::new();
    let marks = [Cell::Z, Cell::K, Cell::Z, Cell::Z, Cell::Z, Cell::K, Cell::K, Cell::Z, Cell::K];
    for (i, m) in marks.iter().enumerate() {
        assert!(board.make_move(i, *m));
    }
    assert!(board.is_full());
    assert!(board.get_empty_cells().is_empty());
    assert_eq!(board.check_winner(), None);
}

#[test]
fn computer_move_is_drawn_from_empty_cells() {
    let mut board = Board::new();
    board.make_move(0, Cell::Z);
    let mut rng = SimpleRNG::new(7);
    assert_eq!(get_computer_move(&board, &mut rng), 3);
}

#[test]
fn apply_turn_outcomes() {
    let mut board = Board::new();
    assert_eq!(apply_turn(&mut board, 9, Cell::Z), Turn::Rejected);
    assert_eq!(apply_turn(&mut board, 0, Cell::Z), Turn::Next);
    assert_eq!(apply_turn(&mut board, 0, Cell::K), Turn::Rejected);
    assert_eq!(apply_turn(&mut board, 1, Cell::Z), Turn::Next);
    assert_eq!(apply_turn(&mut board, 2, Cell::Z), Turn::Won(Cell::Z));

    let mut board = Board::new();
    let marks = [Cell::Z, Cell::K, Cell::Z, Cell::Z, Cell::Z, Cell::K, Cell::K, Cell::Z];
    for (i, m) in marks.iter().enumerate() {
        assert_eq!(apply_turn(&mut board, i, *m), Turn::Next);
    }
    assert_eq!(apply_turn(&mut board, 8, Cell::K), Turn::Drawn);
}

#[test]
fn human_move_reads_empty_cells() {
    let mut board = Board::new();
    board.make_move(4, Cell::K);
    assert_eq!(human_move("3", &board), Some(3));
    assert_eq!(human_move("4", &board), None);
    assert_eq!(human_move("9", &board), None);
    assert_eq!(human_move("x", &board), None);
    assert_eq!(human_move("", &board), None);
}

#[test]
fn render_draws_numbers_and_marks() {
    let mut board = Board::new();
    board.make_move(0, Cell::Z);
    board.make_move(4, Cell::K);
    assert_eq!(board.render(), "Z|1|2\n-+-+-\n3|K|5\n-+-+-\n6|7|8\n\n");
}
