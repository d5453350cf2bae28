//! The move parser: converts one raw text line into a structured command —
//! quit, or place at a coordinate — or a typed parse failure.
//!
//! A line is first trimmed of leading and trailing ASCII whitespace by the
//! caller (see [`trim`]). The trimmed line `"q"` or `"Q"` is the quit
//! command; otherwise the line must be exactly two fields separated by a
//! single comma, each field a base-10 non-negative integer made of digits
//! alone — no sign, no whitespace inside a field.

use vstd::prelude::*;
use vstd::string::StrSliceExecFns;

verus! {

use crate::board::Coordinate;

/// Why a field failed to parse as a non-negative integer: it was empty,
/// held a non-digit character, or its value does not fit in `usize`.
#[derive(Debug, Clone, Copy, PartialEq, Eq, Structural)]
pub enum ParseIntErrorKind {
    Empty,
    InvalidDigit,
    PosOverflow,
}

/// Why a line failed to parse as a command: `FormatError` when it does not
/// split into exactly two comma-separated fields, `CoordinateError` when a
/// field is not a valid non-negative integer (wrapping the numeric cause).
#[derive(Debug, Clone, Copy, PartialEq, Eq, Structural)]
pub enum ParseMoveError {
    FormatError,
    CoordinateError(ParseIntErrorKind),
}

impl From<ParseIntErrorKind> for ParseMoveError {
    /// Wraps a numeric parse failure as a coordinate error.
    fn from(e: ParseIntErrorKind) -> (r: ParseMoveError) {
        ParseMoveError::CoordinateError(e)
    }
}

impl vstd::std_specs::convert::FromSpecImpl<ParseIntErrorKind> for ParseMoveError {
    open spec fn obeys_from_spec() -> bool {
        true
    }

    open spec fn from_spec(v: ParseIntErrorKind) -> ParseMoveError {
        ParseMoveError::CoordinateError(v)
    }
}

/// A parsed command: quit the game, or place at a coordinate.
#[derive(Debug, Clone, Copy, PartialEq, Eq, Structural)]
pub enum ParsedMove {
    Quit,
    Move(Coordinate),
}

/// ASCII whitespace, as trimmed from the ends of a raw line.
pub open spec fn is_space(c: char) -> bool {
    c == ' ' || c == '\t' || c == '\n' || c == '\r'
}

/// A line with its leading whitespace removed.
pub open spec fn trim_left(s: Seq<char>) -> Seq<char>
    decreases s.len(),
{
    if s.len() > 0 && is_space(s[0]) {
        trim_left(s.drop_first())
    } else {
        s
    }
}

/// A line with its trailing whitespace removed.
pub open spec fn trim_right(s: Seq<char>) -> Seq<char>
    decreases s.len(),
{
    if s.len() > 0 && is_space(s.last()) {
        trim_right(s.drop_last())
    } else {
        s
    }
}

/// A line with whitespace removed from both ends.
pub open spec fn spec_trim(s: Seq<char>) -> Seq<char> {
    trim_right(trim_left(s))
}

/// A decimal digit.
pub open spec fn is_digit(c: char) -> bool {
    48 <= (c as u32) && (c as u32) <= 57
}

/// The numeric value of a digit (and zero for any other character, so the
/// function is total; it is only applied to digits).
pub open spec fn digit_val(c: char) -> int {
    if is_digit(c) {
        (c as u32) - 48
    } else {
        0
    }
}

/// Whether every character of a field is a decimal digit.
pub open spec fn all_digits(s: Seq<char>) -> bool {
    forall|i: int| 0 <= i < s.len() ==> is_digit(#[trigger] s[i])
}

/// The value of a field read as a base-10 numeral, most significant digit
/// first.
pub open spec fn digits_val(s: Seq<char>) -> int
    decreases s.len(),
{
    if s.len() == 0 {
        0
    } else {
        digits_val(s.drop_last()) * 10 + digit_val(s.last())
    }
}

/// How one field parses as a non-negative integer: empty fields, fields
/// with any non-digit character (including a sign), and values over
/// `usize::MAX` are rejected, each with its own cause.
pub open spec fn spec_parse_usize(s: Seq<char>) -> Result<usize, ParseIntErrorKind> {
    if s.len() == 0 {
        Err(ParseIntErrorKind::Empty)
    } else if !all_digits(s) {
        Err(ParseIntErrorKind::InvalidDigit)
    } else if digits_val(s) > usize::MAX {
        Err(ParseIntErrorKind::PosOverflow)
    } else {
        Ok(digits_val(s) as usize)
    }
}

/// The index of the first comma of `s`, or `s.len()` if there is none.
pub open spec fn first_comma_idx(s: Seq<char>) -> int
    decreases s.len(),
{
    if s.len() == 0 {
        0
    } else if s[0] == ',' {
        0
    } else {
        1 + first_comma_idx(s.drop_first())
    }
}

/// Whether some comma occurs strictly after position `i`.
pub open spec fn comma_after(s: Seq<char>, i: int) -> bool {
    exists|j: int| i < j < s.len() && #[trigger] s[j] == ','
}

/// Whether the (already trimmed) line is the quit command.
pub open spec fn is_quit(s: Seq<char>) -> bool {
    s.len() == 1 && (s[0] == 'q' || s[0] == 'Q')
}

/// How a trimmed line parses: the quit command; or exactly two
/// comma-separated fields, each a non-negative integer, giving a placement
/// at `(x, y)`; any other field count is a `FormatError`, and a bad field
/// is a `CoordinateError` (the first bad field decides).
pub open spec fn spec_parse_move(s: Seq<char>) -> Result<ParsedMove, ParseMoveError> {
    if is_quit(s) {
        Ok(ParsedMove::Quit)
    } else {
        let i = first_comma_idx(s);
        if i >= s.len() {
            Err(ParseMoveError::FormatError)
        } else if comma_after(s, i) {
            Err(ParseMoveError::FormatError)
        } else {
            match (spec_parse_usize(s.subrange(0, i)), spec_parse_usize(
                s.subrange(i + 1, s.len() as int),
            )) {
                (Err(e), _) => Err(ParseMoveError::CoordinateError(e)),
                (Ok(_), Err(e)) => Err(ParseMoveError::CoordinateError(e)),
                (Ok(x), Ok(y)) => Ok(ParsedMove::Move(Coordinate { x, y })),
            }
        }
    }
}

/// A comma at `i`, with none before it, is the first comma.
proof fn lemma_first_comma_at(s: Seq<char>, i: int)
    requires
        0 <= i < s.len(),
        s[i] == ',',
        forall|k: int| 0 <= k < i ==> #[trigger] s[k] != ',',
    ensures
        first_comma_idx(s) == i,
    decreases i,
{
    if i > 0 {
        lemma_first_comma_at(s.drop_first(), i - 1);
    }
}

/// With no comma at all, `first_comma_idx` is the length.
proof fn lemma_no_comma(s: Seq<char>)
    requires
        forall|k: int| 0 <= k < s.len() ==> #[trigger] s[k] != ',',
    ensures
        first_comma_idx(s) == s.len(),
    decreases s.len(),
{
    if s.len() > 0 {
        lemma_no_comma(s.drop_first());
    }
}

/// A numeral's value is non-negative.
proof fn lemma_digits_val_nonneg(s: Seq<char>)
    ensures
        digits_val(s) >= 0,
    decreases s.len(),
{
    if s.len() > 0 {
        lemma_digits_val_nonneg(s.drop_last());
    }
}

/// A numeral is at least as large as any of its prefixes: appending digits
/// never decreases the value.
proof fn lemma_digits_val_prefix_le(s: Seq<char>, i: int)
    requires
        0 <= i <= s.len(),
    ensures
        digits_val(s.subrange(0, i)) <= digits_val(s),
    decreases s.len() - i,
{
    if i == s.len() {
        assert(s.subrange(0, i) =~= s);
    } else {
        let shorter = s.subrange(0, i);
        let longer = s.subrange(0, i + 1);
        assert(longer.drop_last() =~= shorter);
        lemma_digits_val_nonneg(shorter);
        lemma_digits_val_prefix_le(s, i + 1);
    }
}

/// Whether a character is ASCII whitespace.
fn is_space_char(c: char) -> (r: bool)
    ensures
        r == is_space(c),
{
    c == ' ' || c == '\t' || c == '\n' || c == '\r'
}

/// Removes leading ASCII whitespace.
fn trim_start(s: &str) -> (r: &str)
    ensures
        r@ == trim_left(s@),
    decreases s@.len(),
{
    let n = s.unicode_len();
    if n > 0 {
        let c = s.get_char(0);
        if is_space_char(c) {
            let rest = s.substring_char(1, n);
            proof {
                assert(rest@ =~= s@.drop_first());
            }
            return trim_start(rest);
        }
    }
    s
}

/// Removes trailing ASCII whitespace.
fn trim_end(s: &str) -> (r: &str)
    ensures
        r@ == trim_right(s@),
    decreases s@.len(),
{
    let n = s.unicode_len();
    if n > 0 {
        let c = s.get_char(n - 1);
        if is_space_char(c) {
            let rest = s.substring_char(0, n - 1);
            proof {
                assert(rest@ =~= s@.drop_last());
            }
            return trim_end(rest);
        }
    }
    s
}

/// Removes ASCII whitespace from both ends of a raw line; applied to each
/// line before it is parsed.
pub fn trim(s: &str) -> (r: &str)
    ensures
        r@ == spec_trim(s@),
{
    trim_end(trim_start(s))
}

/// Parses one field as a base-10 non-negative integer: digits only, value
/// at most `usize::MAX`.
fn parse_usize(s: &str) -> (r: Result<usize, ParseIntErrorKind>)
    ensures
        r == spec_parse_usize(s@),
{
    let n = s.unicode_len();
    if n == 0 {
        return Err(ParseIntErrorKind::Empty);
    }
    let mut i: usize = 0;
    while i < n
        invariant
            n == s@.len(),
            i <= n,
            forall|k: int| 0 <= k < i ==> is_digit(#[trigger] s@[k]),
        decreases n - i,
    {
        let c = s.get_char(i);
        let u = c as u32;
        if u < 48 || u > 57 {
            assert(!is_digit(s@[i as int]));
            return Err(ParseIntErrorKind::InvalidDigit);
        }
        i += 1;
    }
    assert(all_digits(s@));
    let mut acc: usize = 0;
    let mut j: usize = 0;
    while j < n
        invariant
            n == s@.len(),
            j <= n,
            all_digits(s@),
            acc == digits_val(s@.subrange(0, j as int)),
        decreases n - j,
    {
        let c = s.get_char(j);
        let u = c as u32;
        assert(is_digit(s@[j as int]));
        let d = (u - 48) as usize;
        proof {
            assert(s@.subrange(0, j + 1).drop_last() =~= s@.subrange(0, j as int));
            assert(s@.subrange(0, j + 1).last() == s@[j as int]);
            assert(digits_val(s@.subrange(0, j + 1)) == digits_val(s@.subrange(0, j as int)) * 10
                + digit_val(s@[j as int]));
        }
        let shifted = match acc.checked_mul(10) {
            Some(v) => v,
            None => {
                proof {
                    lemma_digits_val_nonneg(s@.subrange(0, j as int));
                    lemma_digits_val_prefix_le(s@, j + 1);
                }
                return Err(ParseIntErrorKind::PosOverflow);
            },
        };
        acc = match shifted.checked_add(d) {
            Some(v) => v,
            None => {
                proof {
                    lemma_digits_val_prefix_le(s@, j + 1);
                }
                return Err(ParseIntErrorKind::PosOverflow);
            },
        };
        j += 1;
    }
    proof {
        assert(s@.subrange(0, n as int) =~= s@);
    }
    Ok(acc)
}

/// Parses one trimmed line as a command.
///
/// Exactly `"q"` or `"Q"` quits. Otherwise the line must be two fields
/// split on a single comma — any other field count is a `FormatError` —
/// and each field a non-negative integer, or the first failing field's
/// cause is returned as a `CoordinateError`. Fields are not trimmed:
/// whitespace inside a field fails integer parsing.
pub fn parse_move(input: &str) -> (r: Result<ParsedMove, ParseMoveError>)
    ensures
        r == spec_parse_move(input@),
{
    let n = input.unicode_len();
    if n == 1 {
        let c = input.get_char(0);
        if c == 'q' || c == 'Q' {
            return Ok(ParsedMove::Quit);
        }
    }
    assert(!is_quit(input@));
    let mut i: usize = 0;
    while i < n && input.get_char(i) != ','
        invariant
            n == input@.len(),
            i <= n,
            forall|k: int| 0 <= k < i ==> #[trigger] input@[k] != ',',
        decreases n - i,
    {
        i += 1;
    }
    if i == n {
        proof {
            lemma_no_comma(input@);
        }
        return Err(ParseMoveError::FormatError);
    }
    proof {
        lemma_first_comma_at(input@, i as int);
    }
    let mut j: usize = i + 1;
    while j < n && input.get_char(j) != ','
        invariant
            n == input@.len(),
            i < j <= n,
            forall|k: int| i < k < j ==> #[trigger] input@[k] != ',',
        decreases n - j,
    {
        j += 1;
    }
    if j < n {
        assert(comma_after(input@, i as int));
        return Err(ParseMoveError::FormatError);
    }
    proof {
        if comma_after(input@, i as int) {
            let w = choose|k: int| (i as int) < k < input@.len() && input@[k] == ',';
            assert(input@[w] != ',');
        }
    }
    let x_str = input.substring_char(0, i);
    let y_str = input.substring_char(i + 1, n);
    let x = match parse_usize(x_str) {
        Ok(v) => v,
        Err(e) => {
            return Err(ParseMoveError::from(e));
        },
    };
    let y = match parse_usize(y_str) {
        Ok(v) => v,
        Err(e) => {
            return Err(ParseMoveError::from(e));
        },
    };
    Ok(ParsedMove::Move(Coordinate { x, y }))
}

} // verus!
