use tic_tac_toe::board::{check_win, line_at, Board, Cell, Mark};

fn board_with(cells: &[(usize, Mark)]) -> Board {
    let mut b = Board::new();
    for &(i, m) in cells {
        b.place(i, m);
    }
    b
}

#[test]
fn new_board_is_empty_and_not_full() {
    let b = Board::new();
    for i in 0..9 {
        assert_eq!(b.cell(i), Cell::Empty);
        assert!(!b.occupied(i));
    }
    assert!(!b.is_full());
    assert!(!b.has_line(Mark::MarkA));
    assert!(!b.has_line(Mark::MarkB));
}

#[test]
fn place_fills_one_cell() {
    let b = board_with(&[(4, Mark::MarkB)]);
    assert!(b.occupied(4));
    assert_eq!(b.cell(4), Cell::MarkB);
    for i in (0..9).filter(|&i| i != 4) {
        assert!(!b.occupied(i));
    }
}

#[test]
fn every_win_line_is_detected() {
    for k in 0..8 {
        let line = line_at(k);
        let b = board_with(&[(line[0], Mark::MarkA), (line[1], Mark::MarkA), (line[2], Mark::MarkA)]);
        assert!(b.has_line(Mark::MarkA));
        assert!(check_win(&b, Mark::MarkA));
        assert!(!b.has_line(Mark::MarkB));
    }
}

#[test]
fn win_lines_are_rows_columns_diagonals() {
    let expected = [
        [0, 1, 2],
        [3, 4, 5],
        [6, 7, 8],
        [0, 3, 6],
        [1, 4, 7],
        [2, 5, 8],
        [0, 4, 8],
        [2, 4, 6],
    ];
    for k in 0..8 {
        assert_eq!(line_at(k), expected[k]);
    }
}

#[test]
fn two_marks_make_no_line() {
    let b = board_with(&[(0, Mark::MarkA), (1, Mark::MarkA)]);
    assert!(!b.has_line(Mark::MarkA));
}

#[test]
fn mixed_line_is_no_win() {
    let b = board_with(&[(0, Mark::MarkA), (1, Mark::MarkB), (2, Mark::MarkA)]);
    assert!(!b.has_line(Mark::MarkA));
    assert!(!b.has_line(Mark::MarkB));
}

#[test]
fn three_marks_off_line_is_no_win() {
    let b = board_with(&[(0, Mark::MarkB), (1, Mark::MarkB), (5, Mark::MarkB)]);
    assert!(!b.has_line(Mark::MarkB));
}

#[test]
fn full_board_is_full() {
    let marks = [
        Mark::MarkA, Mark::MarkB, Mark::MarkA,
        Mark::MarkA, Mark::MarkB, Mark::MarkB,
        Mark::MarkB, Mark::MarkA, Mark::MarkA,
    ];
    let mut b = Board::new();
    for i in 0..8 {
        b.place(i, marks[i]);
        assert!(!b.is_full());
    }
    b.place(8, marks[8]);
    assert!(b.is_full());
}

#[test]
fn empty_board_renders_blank_cells() {
    let b = Board::new();
    assert_eq!(
        b.render(),
        "\n   |   |   \n---+---+---\n   |   |   \n---+---+---\n   |   |   \n\n"
    );
}

#[test]
fn board_renders_marks() {
    let b = board_with(&[(0, Mark::MarkA), (4, Mark::MarkB), (8, Mark::MarkA)]);
    assert_eq!(
        b.render(),
        "\n X |   |   \n---+---+---\n   | O |   \n---+---+---\n   |   | X \n\n"
    );
}

#[test]
fn marks_and_cells_correspond() {
    assert_eq!(Mark::MarkA.cell(), Cell::MarkA);
    assert_eq!(Mark::MarkB.cell(), Cell::MarkB);
    assert_eq!(Mark::MarkA.other(), Mark::MarkB);
    assert_eq!(Mark::MarkB.other(), Mark::MarkA);
}
