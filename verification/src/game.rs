//! The game loop: a turn state machine over an input source. Each
//! iteration pulls one raw line, parses it, and either quits, retries the
//! same turn (on a parse failure or an illegal move, which consume no
//! turn), or places the current side's mark and continues or ends on the
//! board's verdict. Nought always moves first.

use vstd::prelude::*;

verus! {

use crate::board::{
    BoardView, GameBoard, GameResult, Line, PositionState, lemma_place_preserves_wf,
    lemma_wins_at_witness,
};
use crate::input::GameInputReader;
use crate::parser::{ParsedMove, parse_move, spec_parse_move, spec_trim, trim};

/// The terminal state of a finished game loop.
#[derive(Debug, Clone, Copy, PartialEq, Eq, Structural)]
pub enum GameLoopEnd {
    /// The player entered the quit command.
    Quit,
    /// A mark completed a line.
    Won(PositionState),
    /// The draw threshold was reached without a win.
    Draw,
    /// The input source was exhausted or failed.
    InputFailure,
}

/// The other side.
pub open spec fn flip(side: PositionState) -> PositionState {
    match side {
        PositionState::Nought => PositionState::Cross,
        PositionState::Cross => PositionState::Nought,
    }
}

/// The other side; the turn passes to it after an `Ongoing` placement.
fn flip_side(side: PositionState) -> (r: PositionState)
    ensures
        r == flip(side),
{
    match side {
        PositionState::Cross => PositionState::Nought,
        PositionState::Nought => PositionState::Cross,
    }
}

/// The turn state machine as a function of the board, the side to move,
/// and the lines still to come. One line is consumed per step: a line
/// that fails to parse or names an illegal move keeps the same turn; the
/// quit command, a win, a draw, and the end of input are terminal. The
/// result is the final board and the terminal state.
pub open spec fn spec_run(b: BoardView, side: PositionState, lines: Seq<Seq<char>>) -> (
    BoardView,
    GameLoopEnd,
)
    decreases lines.len(),
{
    if lines.len() == 0 {
        (b, GameLoopEnd::InputFailure)
    } else {
        let rest = lines.drop_first();
        match spec_parse_move(spec_trim(lines[0])) {
            Err(_) => spec_run(b, side, rest),
            Ok(ParsedMove::Quit) => (b, GameLoopEnd::Quit),
            Ok(ParsedMove::Move(pos)) => {
                let step = b.place(pos, side);
                match step.1 {
                    Err(_) => spec_run(step.0, side, rest),
                    Ok(GameResult::Ongoing) => spec_run(step.0, flip(side), rest),
                    Ok(GameResult::Draw) => (step.0, GameLoopEnd::Draw),
                    Ok(GameResult::NoughtWin) => (step.0, GameLoopEnd::Won(PositionState::Nought)),
                    Ok(GameResult::CrossWin) => (step.0, GameLoopEnd::Won(PositionState::Cross)),
                }
            },
        }
    }
}

impl GameBoard {
    /// Runs the turn state machine over `input_reader` until a terminal
    /// state, starting with Nought's turn, and returns that state.
    ///
    /// The final board and the returned terminal state are exactly
    /// `spec_run` of the starting board and the source's pending lines:
    /// the loop is deterministic in the lines the source produces.
    pub fn play_game_with_reader<T: GameInputReader>(&mut self, input_reader: T) -> (r:
        GameLoopEnd)
        requires
            old(self).inv(),
        ensures
            final(self).inv(),
            final(self)@.wf(),
            (final(self)@, r) == spec_run(
                old(self)@,
                PositionState::Nought,
                input_reader.pending(),
            ),
    {
        proof {
            self.lemma_inv_wf();
        }
        let ghost init_lines = input_reader.pending();
        let mut reader = input_reader;
        let mut current_side = PositionState::Nought;
        loop
            invariant
                self.inv(),
                self@.wf(),
                init_lines == input_reader.pending(),
                spec_run(self@, current_side, reader.pending()) == spec_run(
                    old(self)@,
                    PositionState::Nought,
                    init_lines,
                ),
            decreases reader.pending().len(),
        {
            let ghost pend0 = reader.pending();
            let ghost board0 = self@;
            match reader.read() {
                None => {
                    proof {
                        assert(spec_run(self@, current_side, reader.pending()) == (
                            self@,
                            GameLoopEnd::InputFailure,
                        ));
                    }
                    return GameLoopEnd::InputFailure;
                },
                Some(line) => {
                    let trimmed = trim(line.as_str());
                    proof {
                        assert(pend0[0] == line@);
                        assert(reader.pending() == pend0.drop_first());
                    }
                    match parse_move(trimmed) {
                        Err(_) => {
                            // A parse failure consumes no turn; try the next line.
                            proof {
                                assert(spec_run(board0, current_side, pend0) == spec_run(
                                    board0,
                                    current_side,
                                    pend0.drop_first(),
                                ));
                            }
                        },
                        Ok(ParsedMove::Quit) => {
                            proof {
                                assert(spec_run(board0, current_side, pend0) == (
                                    board0,
                                    GameLoopEnd::Quit,
                                ));
                            }
                            return GameLoopEnd::Quit;
                        },
                        Ok(ParsedMove::Move(pos)) => {
                            let ghost side0 = current_side;
                            match self.make_move(pos, current_side) {
                                Err(_) => {
                                    // An illegal move consumes no turn; try the next line.
                                    proof {
                                        assert(spec_run(board0, side0, pend0) == spec_run(
                                            self@,
                                            side0,
                                            pend0.drop_first(),
                                        ));
                                    }
                                },
                                Ok(GameResult::Ongoing) => {
                                    current_side = flip_side(current_side);
                                    proof {
                                        assert(spec_run(board0, side0, pend0) == spec_run(
                                            self@,
                                            flip(side0),
                                            pend0.drop_first(),
                                        ));
                                    }
                                },
                                Ok(GameResult::Draw) => {
                                    proof {
                                        assert(spec_run(board0, side0, pend0) == (
                                            self@,
                                            GameLoopEnd::Draw,
                                        ));
                                    }
                                    return GameLoopEnd::Draw;
                                },
                                Ok(GameResult::NoughtWin) => {
                                    proof {
                                        assert(spec_run(board0, side0, pend0) == (
                                            self@,
                                            GameLoopEnd::Won(PositionState::Nought),
                                        ));
                                    }
                                    return GameLoopEnd::Won(PositionState::Nought);
                                },
                                Ok(GameResult::CrossWin) => {
                                    proof {
                                        assert(spec_run(board0, side0, pend0) == (
                                            self@,
                                            GameLoopEnd::Won(PositionState::Cross),
                                        ));
                                    }
                                    return GameLoopEnd::Won(PositionState::Cross);
                                },
                            }
                        },
                    }
                },
            }
        }
    }
}

/// A won game shows its line: whenever the turn state machine ends in
/// `Won(m)`, the final board is still well-formed and holds a full line
/// of `m`; and however it ends, the board invariant survives the game.
pub proof fn lemma_run_win_has_line(b: BoardView, side: PositionState, lines: Seq<Seq<char>>)
    requires
        b.wf(),
    ensures
        spec_run(b, side, lines).0.wf(),
        forall|m: PositionState|
            spec_run(b, side, lines).1 == GameLoopEnd::Won(m) ==> exists|line: Line|
                #[trigger] spec_run(b, side, lines).0.line_full(line, m) && spec_run(
                    b,
                    side,
                    lines,
                ).0.line_valid(line),
    decreases lines.len(),
{
    if lines.len() > 0 {
        let rest = lines.drop_first();
        match spec_parse_move(spec_trim(lines[0])) {
            Err(_) => {
                lemma_run_win_has_line(b, side, rest);
            },
            Ok(ParsedMove::Quit) => {},
            Ok(ParsedMove::Move(pos)) => {
                let step = b.place(pos, side);
                lemma_place_preserves_wf(b, pos, side);
                match step.1 {
                    Err(_) => {
                        lemma_run_win_has_line(step.0, side, rest);
                    },
                    Ok(GameResult::Ongoing) => {
                        lemma_run_win_has_line(step.0, flip(side), rest);
                    },
                    Ok(GameResult::Draw) => {},
                    Ok(GameResult::NoughtWin) => {
                        assert(step.0.wins_at(pos, side));
                        lemma_wins_at_witness(step.0, pos, side);
                    },
                    Ok(GameResult::CrossWin) => {
                        assert(step.0.wins_at(pos, side));
                        lemma_wins_at_witness(step.0, pos, side);
                    },
                }
            },
        }
    }
}

/// Determinism of replay: from equal boards, the same side to move, and
/// the same script, the turn state machine reaches the same final board
/// and the same terminal state. Two independently constructed boards of
/// one dimension are equal (`BoardView::fresh`), so replaying one scripted
/// command sequence against each produces identical outcomes.
pub proof fn lemma_replay_deterministic(
    b1: BoardView,
    b2: BoardView,
    side: PositionState,
    lines: Seq<Seq<char>>,
)
    requires
        b1 == b2,
    ensures
        spec_run(b1, side, lines) == spec_run(b2, side, lines),
{
}

} // verus!
