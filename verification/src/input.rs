//! The input-source abstraction: the game loop pulls raw lines through a
//! capability with one operation — produce the next line, or report
//! end-of-input — and never learns where the lines come from. The scripted
//! implementation here replays a fixed sequence, which makes the loop's
//! turn logic deterministically testable; an interactive implementation
//! can live outside the crate.

use vstd::prelude::*;
use vstd::string::StringExecFns;

verus! {

/// A source of raw input lines for the game loop.
///
/// `pending` models the source: the ordered lines it has still to
/// produce. `read` hands out the head of `pending` and advances, or
/// reports end-of-input — which is distinct from producing an empty line —
/// exactly when `pending` is exhausted.
pub trait GameInputReader: Sized {
    /// The lines this source has still to produce. An implementation that
    /// cannot name its lines in advance (an interactive source) may keep
    /// the default model; it is then not a source the contract of `read`
    /// describes truthfully, and nothing verified rests on it — the model
    /// is checked only for implementations inside this crate.
    open spec fn pending(&self) -> Seq<Seq<char>> {
        Seq::empty()
    }

    /// Produces the next line, or `None` at end-of-input.
    fn read(&mut self) -> (r: Option<String>)
        ensures
            match r {
                Some(line) => old(self).pending().len() > 0 && line@ == old(self).pending()[0]
                    && final(self).pending() == old(self).pending().drop_first(),
                None => old(self).pending().len() == 0 && final(self).pending() == old(
                    self,
                ).pending(),
            },
    ;
}

/// Replays a fixed ordered sequence of lines, then reports end-of-input.
pub struct PresetMoveReader {
    moves: Vec<String>,
    index: usize,
}

impl PresetMoveReader {
    /// A reader that will produce the given lines, in order.
    pub fn new(moves: &[&str]) -> (r: PresetMoveReader)
        ensures
            r.pending() == Seq::new(moves@.len(), |i: int| moves@[i]@),
    {
        let mut copied: Vec<String> = Vec::new();
        let mut i: usize = 0;
        while i < moves.len()
            invariant
                i <= moves@.len(),
                copied@.len() == i,
                forall|k: int| 0 <= k < i ==> #[trigger] copied@[k]@ == moves@[k]@,
            decreases moves@.len() - i,
        {
            copied.push(String::from_str(moves[i]));
            i += 1;
        }
        let r = PresetMoveReader { moves: copied, index: 0 };
        proof {
            assert(r.pending() =~= Seq::new(moves@.len(), |i: int| moves@[i]@));
        }
        r
    }
}

impl GameInputReader for PresetMoveReader {
    /// The lines from the cursor onward.
    closed spec fn pending(&self) -> Seq<Seq<char>> {
        if self.index <= self.moves@.len() {
            self.moves@.skip(self.index as int).map(|i: int, s: String| s@)
        } else {
            Seq::empty()
        }
    }

    /// Returns the line under the cursor and advances, or `None` once the
    /// cursor has exhausted the sequence.
    fn read(&mut self) -> (r: Option<String>) {
        if self.index >= self.moves.len() {
            return None;
        }
        let val = self.moves[self.index].clone();
        self.index = self.index + 1;
        proof {
            assert(self.pending() =~= old(self).pending().drop_first());
        }
        Some(val)
    }
}

} // verus!
