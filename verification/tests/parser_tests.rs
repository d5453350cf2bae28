use tictactoe::board::Coordinate;
use tictactoe::parser::{parse_move, trim, ParseIntErrorKind, ParseMoveError, ParsedMove};

#[test]
fn parse_move_test() {
    assert!(matches!(
        parse_move("3,6"),
        Ok(ParsedMove::Move(Coordinate { x: 3, y: 6 }))
    ));

    assert!(matches!(parse_move("q"), Ok(ParsedMove::Quit)));
    assert!(matches!(parse_move("Q"), Ok(ParsedMove::Quit)));

    assert!(matches!(parse_move("1,2,3"), Err(ParseMoveError::FormatError)));

    assert!(parse_move("a,1").is_err());
    assert!(parse_move(",").is_err());
    assert!(parse_move("-1,0").is_err());
}

#[test]
fn parse_zero_coordinates() {
    assert!(matches!(
        parse_move("0,0"),
        Ok(ParsedMove::Move(Coordinate { x: 0, y: 0 }))
    ));
}

#[test]
fn parse_rejects_wrong_field_counts() {
    assert!(matches!(parse_move(""), Err(ParseMoveError::FormatError)));
    assert!(matches!(parse_move("12"), Err(ParseMoveError::FormatError)));
    assert!(matches!(parse_move("1,2,"), Err(ParseMoveError::FormatError)));
    assert!(matches!(parse_move(",,"), Err(ParseMoveError::FormatError)));
}

#[test]
fn parse_reports_the_numeric_cause() {
    assert!(matches!(
        parse_move(","),
        Err(ParseMoveError::CoordinateError(ParseIntErrorKind::Empty))
    ));
    assert!(matches!(
        parse_move("1,"),
        Err(ParseMoveError::CoordinateError(ParseIntErrorKind::Empty))
    ));
    assert!(matches!(
        parse_move("a,1"),
        Err(ParseMoveError::CoordinateError(
            ParseIntErrorKind::InvalidDigit
        ))
    ));
    assert!(matches!(
        parse_move("-1,0"),
        Err(ParseMoveError::CoordinateError(
            ParseIntErrorKind::InvalidDigit
        ))
    ));
    // A sign is a non-digit character: fields are digits only.
    assert!(matches!(
        parse_move("+1,0"),
        Err(ParseMoveError::CoordinateError(
            ParseIntErrorKind::InvalidDigit
        ))
    ));
    // Fields are not trimmed: internal whitespace fails integer parsing.
    assert!(matches!(
        parse_move("1, 2"),
        Err(ParseMoveError::CoordinateError(
            ParseIntErrorKind::InvalidDigit
        ))
    ));
    assert!(matches!(
        parse_move("1,99999999999999999999999999"),
        Err(ParseMoveError::CoordinateError(
            ParseIntErrorKind::PosOverflow
        ))
    ));
}

#[test]
fn quit_must_stand_alone() {
    // Only the exact one-character commands quit.
    assert!(matches!(parse_move("qq"), Err(ParseMoveError::FormatError)));
    assert!(matches!(
        parse_move("q,"),
        Err(ParseMoveError::CoordinateError(
            ParseIntErrorKind::InvalidDigit
        ))
    ));
}

#[test]
fn trim_removes_outer_whitespace_only() {
    assert_eq!(trim("  1,2\n"), "1,2");
    assert_eq!(trim("\tq\r\n"), "q");
    assert_eq!(trim("1, 2"), "1, 2");
    assert_eq!(trim(""), "");
    assert_eq!(trim("   "), "");
}
