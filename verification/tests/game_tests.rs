use tictactoe::board::{GameBoard, PositionState};
use tictactoe::game::GameLoopEnd;
use tictactoe::input::PresetMoveReader;

#[test]
fn test_game() {
    let moves = ["0,0", "1,1", "0,1", "2,0", "0,2"];
    let input_reader = PresetMoveReader::new(&moves);
    let mut game_board = GameBoard::new(3);
    game_board.play_game_with_reader(input_reader);
}

#[test]
fn scripted_game_ends_in_a_nought_win() {
    // Nought takes (0,0), (0,1), (0,2); Cross takes (1,1), (2,0). The
    // fifth placement completes column x = 0 for Nought.
    let moves = ["0,0", "1,1", "0,1", "2,0", "0,2"];
    let input_reader = PresetMoveReader::new(&moves);
    let mut game_board = GameBoard::new(3);
    let end = game_board.play_game_with_reader(input_reader);
    assert_eq!(end, GameLoopEnd::Won(PositionState::Nought));
}

#[test]
fn a_won_game_consumes_no_further_input() {
    // Extra lines after the winning move change nothing: the loop stops
    // at the win without reading them.
    let moves = ["0,0", "1,1", "0,1", "2,0", "0,2", "2,2", "q"];
    let input_reader = PresetMoveReader::new(&moves);
    let mut game_board = GameBoard::new(3);
    let end = game_board.play_game_with_reader(input_reader);
    assert_eq!(end, GameLoopEnd::Won(PositionState::Nought));
}

#[test]
fn replaying_a_script_is_deterministic() {
    let moves = ["0,0", "1,1", "0,1", "2,0", "0,2"];

    let mut first_board = GameBoard::new(3);
    let first_end = first_board.play_game_with_reader(PresetMoveReader::new(&moves));

    let mut second_board = GameBoard::new(3);
    let second_end = second_board.play_game_with_reader(PresetMoveReader::new(&moves));

    assert_eq!(first_end, second_end);
    assert_eq!(first_board.render(), second_board.render());
}

#[test]
fn quit_commands_end_the_game() {
    let mut game_board = GameBoard::new(3);
    let end = game_board.play_game_with_reader(PresetMoveReader::new(&["q"]));
    assert_eq!(end, GameLoopEnd::Quit);

    let mut other_board = GameBoard::new(3);
    let end = other_board.play_game_with_reader(PresetMoveReader::new(&["0,0", "Q"]));
    assert_eq!(end, GameLoopEnd::Quit);
}

#[test]
fn exhausted_input_is_a_failure() {
    let mut game_board = GameBoard::new(3);
    let end = game_board.play_game_with_reader(PresetMoveReader::new(&[]));
    assert_eq!(end, GameLoopEnd::InputFailure);

    let mut other_board = GameBoard::new(3);
    let end = other_board.play_game_with_reader(PresetMoveReader::new(&["0,0"]));
    assert_eq!(end, GameLoopEnd::InputFailure);
}

#[test]
fn lines_are_trimmed_before_parsing() {
    let mut game_board = GameBoard::new(3);
    let end = game_board.play_game_with_reader(PresetMoveReader::new(&["  q \n"]));
    assert_eq!(end, GameLoopEnd::Quit);
}

#[test]
fn a_parse_failure_consumes_no_turn() {
    // The malformed lines are reported and retried; Nought still makes
    // all three winning moves.
    let moves = ["zzz", "0,0", "1,1", "3,3", "0,1", "2,0", "0,2"];
    let mut game_board = GameBoard::new(3);
    let end = game_board.play_game_with_reader(PresetMoveReader::new(&moves));
    assert_eq!(end, GameLoopEnd::Won(PositionState::Nought));
}

#[test]
fn an_illegal_move_consumes_no_turn() {
    // Cross first tries the occupied cell (0,0); the retry keeps Cross's
    // turn, so the game still ends in Nought's column win.
    let moves = ["0,0", "0,0", "1,1", "0,1", "2,0", "0,2"];
    let mut game_board = GameBoard::new(3);
    let end = game_board.play_game_with_reader(PresetMoveReader::new(&moves));
    assert_eq!(end, GameLoopEnd::Won(PositionState::Nought));
}

#[test]
fn a_scripted_draw_reaches_the_threshold() {
    // Alternating turns, no line ever completes; the eighth successful
    // placement reaches the draw threshold of dimension^2 - 1.
    let moves = ["0,0", "1,0", "2,0", "1,1", "0,1", "2,1", "1,2", "0,2"];
    let mut game_board = GameBoard::new(3);
    let end = game_board.play_game_with_reader(PresetMoveReader::new(&moves));
    assert_eq!(end, GameLoopEnd::Draw);
}
