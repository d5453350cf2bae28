//! The board state machine: an N x N grid of cells, each empty or holding a
//! mark, together with the single mutating operation `make_move` and the
//! line-scan that classifies the game after every successful placement.

use vstd::prelude::*;
use vstd::string::StringExecFns;

verus! {

/// A cell position: zero-indexed column `x` and row `y`.
///
/// A coordinate has no inherent validity; it is checked against a
/// board's dimension when a move is attempted.
#[derive(Debug, Clone, Copy, PartialEq, Eq, Structural)]
pub struct Coordinate {
    pub x: usize,
    pub y: usize,
}

/// The mark occupying a cell: one of the two sides of the game.
/// Emptiness is not a mark; an empty cell is `None` in the grid.
#[derive(Debug, Clone, Copy, PartialEq, Eq, Structural)]
pub enum PositionState {
    Nought,
    Cross,
}

/// The classification of the game, recomputed after each placement.
#[derive(Debug, Clone, Copy, PartialEq, Eq, Structural)]
pub enum GameResult {
    Ongoing,
    Draw,
    NoughtWin,
    CrossWin,
}

/// Why a placement was rejected. `InvalidCoordinate` carries the offending
/// coordinate; `InvalidMove` carries the mark that tried to move and the
/// mark already occupying the cell, in that order.
#[derive(Debug, Clone, Copy, PartialEq, Eq, Structural)]
pub enum MoveError {
    InvalidCoordinate(Coordinate),
    InvalidMove(PositionState, PositionState),
}

/// One of the four lines that can decide a game: the column through a
/// fixed `x`, the row through a fixed `y`, the main diagonal (`x == y`),
/// or the anti-diagonal (`x + y == dimension - 1`).
#[derive(Debug, Clone, Copy, PartialEq, Eq, Structural)]
pub enum Line {
    Column(usize),
    Row(usize),
    Diagonal,
    AntiDiagonal,
}

/// The winning result for a mark.
pub open spec fn win_of(m: PositionState) -> GameResult {
    match m {
        PositionState::Nought => GameResult::NoughtWin,
        PositionState::Cross => GameResult::CrossWin,
    }
}

impl From<PositionState> for GameResult {
    /// The winning result for the given mark.
    fn from(state: PositionState) -> (r: GameResult) {
        match state {
            PositionState::Cross => GameResult::CrossWin,
            PositionState::Nought => GameResult::NoughtWin,
        }
    }
}

impl vstd::std_specs::convert::FromSpecImpl<PositionState> for GameResult {
    open spec fn obeys_from_spec() -> bool {
        true
    }

    open spec fn from_spec(v: PositionState) -> GameResult {
        win_of(v)
    }
}

/// The number of occupied (`Some`) cells in a grid.
pub open spec fn count_occupied(cells: Seq<Option<PositionState>>) -> int
    decreases cells.len(),
{
    if cells.len() == 0 {
        0
    } else {
        count_occupied(cells.drop_last()) + if cells.last() is Some {
            1int
        } else {
            0int
        }
    }
}

/// The mathematical state of a board: its dimension, the contents of its
/// `dimension * dimension` cells laid out row-major (cell `(x, y)` at index
/// `x + y * dimension`), and the number of successful placements so far.
pub ghost struct BoardView {
    pub dimension: int,
    pub cells: Seq<Option<PositionState>>,
    pub moves_made: int,
}

/// The coordinate of index `i` along a line, on a board of the given
/// dimension, as an `(x, y)` pair.
pub open spec fn line_point(dimension: int, line: Line, i: int) -> (int, int) {
    match line {
        Line::Column(x) => (x as int, i),
        Line::Row(y) => (i, y as int),
        Line::Diagonal => (i, i),
        Line::AntiDiagonal => (i, dimension - 1 - i),
    }
}

impl BoardView {
    /// Well-formedness: a positive dimension whose square fits in `usize`,
    /// exactly `dimension * dimension` cells, and a move count equal to the
    /// number of occupied cells.
    pub open spec fn wf(self) -> bool {
        &&& 1 <= self.dimension
        &&& self.dimension * self.dimension <= usize::MAX
        &&& self.cells.len() == self.dimension * self.dimension
        &&& self.moves_made == count_occupied(self.cells)
    }

    /// A freshly constructed board: every cell empty, no moves made.
    pub open spec fn fresh(dimension: int) -> BoardView {
        BoardView {
            dimension,
            cells: Seq::new((dimension * dimension) as nat, |i: int| None),
            moves_made: 0,
        }
    }

    /// Whether `pos` lies on this board.
    pub open spec fn in_bounds(self, pos: Coordinate) -> bool {
        (pos.x as int) < self.dimension && (pos.y as int) < self.dimension
    }

    /// The row-major cell index of `pos`.
    pub open spec fn idx(self, pos: Coordinate) -> int {
        pos.x + pos.y * self.dimension
    }

    /// The content of the cell at `(x, y)`.
    pub open spec fn cell_xy(self, x: int, y: int) -> Option<PositionState> {
        self.cells[x + y * self.dimension]
    }

    /// The content of the cell at `pos`.
    pub open spec fn cell(self, pos: Coordinate) -> Option<PositionState> {
        self.cells[self.idx(pos)]
    }

    /// Whether a line may be scanned on this board: its fixed coordinate,
    /// if it has one, must lie within the dimension.
    pub open spec fn line_valid(self, line: Line) -> bool {
        match line {
            Line::Column(x) => (x as int) < self.dimension,
            Line::Row(y) => (y as int) < self.dimension,
            Line::Diagonal => true,
            Line::AntiDiagonal => true,
        }
    }

    /// The content of the cell at index `i` along `line`.
    pub open spec fn line_cell(self, line: Line, i: int) -> Option<PositionState> {
        self.cell_xy(line_point(self.dimension, line, i).0, line_point(self.dimension, line, i).1)
    }

    /// Whether every cell of `line` holds mark `m`.
    pub open spec fn line_full(self, line: Line, m: PositionState) -> bool {
        forall|i: int| 0 <= i < self.dimension ==> #[trigger] self.line_cell(line, i) == Some(m)
    }

    /// Whether the placement of `m` at `pos` wins: one of the up-to-four
    /// lines through `pos` — its column, its row, and whichever diagonals
    /// pass through it — is filled entirely with `m`.
    pub open spec fn wins_at(self, pos: Coordinate, m: PositionState) -> bool {
        ||| self.line_full(Line::Column(pos.x), m)
        ||| self.line_full(Line::Row(pos.y), m)
        ||| (pos.x == pos.y && self.line_full(Line::Diagonal, m))
        ||| (pos.x + pos.y == self.dimension - 1 && self.line_full(Line::AntiDiagonal, m))
    }

    /// The result reported after `m` was placed at `pos` (the board already
    /// contains the placement): a win if a line through `pos` is full, and
    /// otherwise a draw once `moves_made` reaches `dimension * dimension - 1`.
    ///
    /// The draw threshold is deliberately `dimension * dimension - 1`: a
    /// draw is declared when all but one cell are occupied without a win,
    /// one placement before the board is actually full. A game driven by
    /// the game loop therefore never fills its last cell.
    pub open spec fn result_after(self, pos: Coordinate, m: PositionState) -> GameResult {
        if self.wins_at(pos, m) {
            win_of(m)
        } else if self.moves_made == self.dimension * self.dimension - 1 {
            GameResult::Draw
        } else {
            GameResult::Ongoing
        }
    }

    /// The board state machine's single transition: attempt to place `m` at
    /// `pos`. Returns the successor board and the outcome: the board is
    /// unchanged on error; on success the cell is recorded, the move count
    /// incremented, and the placement classified by `result_after`.
    pub open spec fn place(self, pos: Coordinate, m: PositionState) -> (BoardView, Result<
        GameResult,
        MoveError,
    >) {
        if !self.in_bounds(pos) {
            (self, Err(MoveError::InvalidCoordinate(pos)))
        } else {
            match self.cell(pos) {
                Some(existing) => (self, Err(MoveError::InvalidMove(m, existing))),
                None => {
                    let placed = BoardView {
                        dimension: self.dimension,
                        cells: self.cells.update(self.idx(pos), Some(m)),
                        moves_made: self.moves_made + 1,
                    };
                    (placed, Ok(placed.result_after(pos, m)))
                },
            }
        }
    }
}

/// A grid of all-empty cells holds no occupied cell.
proof fn lemma_count_occupied_all_none(cells: Seq<Option<PositionState>>)
    requires
        forall|i: int| 0 <= i < cells.len() ==> #[trigger] cells[i] is None,
    ensures
        count_occupied(cells) == 0,
    decreases cells.len(),
{
    if cells.len() > 0 {
        lemma_count_occupied_all_none(cells.drop_last());
    }
}

/// The occupied count never exceeds the number of cells, and if some cell
/// is empty it is strictly below it.
proof fn lemma_count_occupied_bounds(cells: Seq<Option<PositionState>>)
    ensures
        0 <= count_occupied(cells) <= cells.len(),
        (exists|i: int| 0 <= i < cells.len() && #[trigger] cells[i] is None) ==> count_occupied(
            cells,
        ) < cells.len(),
    decreases cells.len(),
{
    if cells.len() > 0 {
        lemma_count_occupied_bounds(cells.drop_last());
        if exists|i: int| 0 <= i < cells.len() && #[trigger] cells[i] is None {
            let i = choose|i: int| 0 <= i < cells.len() && #[trigger] cells[i] is None;
            if i < cells.len() - 1 {
                assert(cells.drop_last()[i] is None);
            }
        }
    }
}

/// Filling one empty cell raises the occupied count by exactly one.
proof fn lemma_count_occupied_update(
    cells: Seq<Option<PositionState>>,
    i: int,
    m: PositionState,
)
    requires
        0 <= i < cells.len(),
        cells[i] is None,
    ensures
        count_occupied(cells.update(i, Some(m))) == count_occupied(cells) + 1,
    decreases cells.len(),
{
    let updated = cells.update(i, Some(m));
    if i == cells.len() - 1 {
        assert(updated.drop_last() =~= cells.drop_last());
    } else {
        assert(updated.drop_last() =~= cells.drop_last().update(i, Some(m)));
        lemma_count_occupied_update(cells.drop_last(), i, m);
    }
}

/// The glyph a cell is rendered as: the mark's display character, or a
/// space for an empty cell.
pub open spec fn glyph(cell: Option<PositionState>) -> char {
    match cell {
        Some(PositionState::Cross) => 'X',
        Some(PositionState::Nought) => 'O',
        None => ' ',
    }
}

/// One rendered row of a board: the glyphs of row `y`, left to right.
pub open spec fn row_view(b: BoardView, y: int) -> Seq<char> {
    Seq::new(b.dimension as nat, |x: int| glyph(b.cell_xy(x, y)))
}

/// The board: a fixed dimension chosen at construction, the row-major grid
/// of cells, and the count of successful placements. Mutated only through
/// `make_move`; a mark, once placed, is never removed or overwritten.
pub struct GameBoard {
    dimension: usize,
    data: Vec<Option<PositionState>>,
    moves_made: usize,
    max_moves: usize,
}

impl View for GameBoard {
    type V = BoardView;

    closed spec fn view(&self) -> BoardView {
        BoardView {
            dimension: self.dimension as int,
            cells: self.data@,
            moves_made: self.moves_made as int,
        }
    }
}

impl GameBoard {
    /// The board's invariant: a well-formed view, with the cached draw
    /// threshold equal to `dimension * dimension - 1`.
    pub closed spec fn inv(&self) -> bool {
        &&& self@.wf()
        &&& self.max_moves == self.dimension * self.dimension - 1
    }

    /// The invariant implies the view is well-formed.
    pub proof fn lemma_inv_wf(&self)
        requires
            self.inv(),
        ensures
            self@.wf(),
    {
    }

    /// Allocates an empty `dimension` x `dimension` board.
    ///
    /// A zero dimension is rejected outright (by precondition), and the
    /// cell count must fit in `usize`.
    pub fn new(dimension: usize) -> (r: GameBoard)
        requires
            1 <= dimension,
            dimension * dimension <= usize::MAX,
        ensures
            r.inv(),
            r@.wf(),
            r@ == BoardView::fresh(dimension as int),
            r@.moves_made == 0,
            forall|i: int| 0 <= i < r@.cells.len() ==> #[trigger] r@.cells[i] is None,
    {
        let total: usize = dimension * dimension;
        let mut data: Vec<Option<PositionState>> = Vec::new();
        let mut i: usize = 0;
        while i < total
            invariant
                i <= total,
                data@.len() == i,
                forall|k: int| 0 <= k < i ==> #[trigger] data@[k] is None,
            decreases total - i,
        {
            data.push(None);
            i += 1;
        }
        proof {
            assert(data@ =~= BoardView::fresh(dimension as int).cells);
            lemma_count_occupied_all_none(data@);
            assert((dimension as int) * (dimension as int) >= 1) by (nonlinear_arith)
                requires
                    1 <= dimension as int,
            ;
        }
        GameBoard { dimension, data, moves_made: 0, max_moves: total - 1 }
    }

    /// Whether `pos` lies on this board.
    fn valid_coordinate(&self, pos: Coordinate) -> (r: bool)
        requires
            self.inv(),
        ensures
            r == self@.in_bounds(pos),
    {
        pos.x < self.dimension && pos.y < self.dimension
    }

    /// The row-major index of a valid coordinate.
    fn to_index(&self, pos: Coordinate) -> (r: usize)
        requires
            self.inv(),
            self@.in_bounds(pos),
        ensures
            r == self@.idx(pos),
            r < self@.cells.len(),
    {
        proof {
            assert(pos.x + pos.y * self.dimension < self.dimension * self.dimension)
                by (nonlinear_arith)
                requires
                    (pos.x as int) < self.dimension as int,
                    (pos.y as int) < self.dimension as int,
            ;
        }
        pos.x + pos.y * self.dimension
    }

    /// The coordinate of index `i` along `line`.
    fn coord_at(&self, line: Line, i: usize) -> (r: Coordinate)
        requires
            self.inv(),
            self@.line_valid(line),
            (i as int) < self@.dimension,
        ensures
            self@.in_bounds(r),
            (r.x as int, r.y as int) == line_point(self@.dimension, line, i as int),
    {
        match line {
            Line::Column(x) => Coordinate { x, y: i },
            Line::Row(y) => Coordinate { x: i, y },
            Line::Diagonal => Coordinate { x: i, y: i },
            Line::AntiDiagonal => Coordinate { x: i, y: self.dimension - 1 - i },
        }
    }

    /// Scans one line: returns the winning result for `state` if every cell
    /// of the line holds `state`, and `None` as soon as a mismatching or
    /// empty cell is found.
    fn determine_line_result(&self, state: PositionState, line: Line) -> (r: Option<GameResult>)
        requires
            self.inv(),
            self@.line_valid(line),
        ensures
            r == if self@.line_full(line, state) {
                Some(win_of(state))
            } else {
                None::<GameResult>
            },
    {
        let dim = self.dimension;
        let mut i: usize = 0;
        while i < dim
            invariant
                self.inv(),
                self@.line_valid(line),
                dim == self.dimension,
                i <= dim,
                forall|k: int| 0 <= k < i ==> #[trigger] self.line_cell_matches(line, k, state),
            decreases dim - i,
        {
            let coord = self.coord_at(line, i);
            let index = self.to_index(coord);
            let entry = self.data[index];
            proof {
                assert(self@.line_cell(line, i as int) == self@.cells[index as int]);
            }
            match entry {
                Some(s) => {
                    if s != state {
                        assert(!self.line_cell_matches(line, i as int, state));
                        return None;
                    }
                },
                None => {
                    assert(!self.line_cell_matches(line, i as int, state));
                    return None;
                },
            }
            assert(self.line_cell_matches(line, i as int, state));
            i += 1;
        }
        assert forall|k: int| 0 <= k < self@.dimension implies #[trigger] self@.line_cell(line, k)
            == Some(state) by {
            assert(self.line_cell_matches(line, k, state));
        }
        Some(GameResult::from(state))
    }

    /// Whether cell `i` of `line` holds `state`; a helper for the scan's
    /// loop invariant.
    spec fn line_cell_matches(&self, line: Line, i: int, state: PositionState) -> bool {
        self@.line_cell(line, i) == Some(state)
    }

    /// Classifies the board after `state` was placed at `pos`: checks the
    /// column and row through `pos` and whichever diagonals pass through
    /// it, then applies the draw threshold.
    fn determine_game_result(&self, pos: Coordinate, state: PositionState) -> (r: GameResult)
        requires
            self.inv(),
            self@.in_bounds(pos),
        ensures
            r == self@.result_after(pos, state),
    {
        // Check the column through pos
        if let Some(result) = self.determine_line_result(state, Line::Column(pos.x)) {
            return result;
        }
        // Check the row through pos
        if let Some(result) = self.determine_line_result(state, Line::Row(pos.y)) {
            return result;
        }
        // Check the main diagonal, if pos lies on it
        if pos.x == pos.y {
            if let Some(result) = self.determine_line_result(state, Line::Diagonal) {
                return result;
            }
        }
        // Check the anti-diagonal, if pos lies on it
        proof {
            assert((pos.x as int) + (pos.y as int) <= usize::MAX) by (nonlinear_arith)
                requires
                    (pos.x as int) < self@.dimension,
                    (pos.y as int) < self@.dimension,
                    1 <= self@.dimension,
                    self@.dimension * self@.dimension <= usize::MAX,
            ;
        }
        if pos.x + pos.y == self.dimension - 1 {
            if let Some(result) = self.determine_line_result(state, Line::AntiDiagonal) {
                return result;
            }
        }
        if self.moves_made == self.max_moves {
            return GameResult::Draw;
        }
        GameResult::Ongoing
    }

    /// Attempts to place `new_state` at `pos`: the single mutating
    /// operation of the board.
    ///
    /// Rejects a coordinate off the board with `InvalidCoordinate` and an
    /// occupied cell with `InvalidMove` (carrying the attempted and the
    /// occupying mark), leaving the board unchanged. Otherwise records the
    /// mark, increments the move count, and returns the classification of
    /// the new position.
    pub fn make_move(&mut self, pos: Coordinate, new_state: PositionState) -> (r: Result<
        GameResult,
        MoveError,
    >)
        requires
            old(self).inv(),
        ensures
            final(self).inv(),
            final(self)@.wf(),
            (final(self)@, r) == old(self)@.place(pos, new_state),
            !old(self)@.in_bounds(pos) ==> final(self)@ == old(self)@ && r == Err::<
                GameResult,
                MoveError,
            >(MoveError::InvalidCoordinate(pos)),
            old(self)@.in_bounds(pos) && old(self)@.cell(pos) is Some ==> final(self)@ == old(
                self,
            )@
                && r == Err::<GameResult, MoveError>(
                MoveError::InvalidMove(new_state, old(self)@.cell(pos)->0),
            ),
            old(self)@.in_bounds(pos) && old(self)@.cell(pos) is None ==> {
                &&& final(self)@.cells == old(self)@.cells.update(
                    old(self)@.idx(pos),
                    Some(new_state),
                )
                &&& final(self)@.moves_made == old(self)@.moves_made + 1
                &&& r == Ok::<GameResult, MoveError>(final(self)@.result_after(pos, new_state))
            },
    {
        if !self.valid_coordinate(pos) {
            return Err(MoveError::InvalidCoordinate(pos));
        }
        let index = self.to_index(pos);
        match self.data[index] {
            Some(state) => {
                return Err(MoveError::InvalidMove(new_state, state));
            },
            None => {},
        }
        proof {
            lemma_count_occupied_bounds(self.data@);
            lemma_count_occupied_update(self.data@, index as int, new_state);
        }
        self.data[index] = Some(new_state);
        self.moves_made = self.moves_made + 1;
        Ok(self.determine_game_result(pos, new_state))
    }

    /// Renders the grid: one string per row `y` from `0` to `dimension - 1`,
    /// each `dimension` characters wide, one glyph per cell — `X` for a
    /// cross, `O` for a nought, a space for an empty cell.
    pub fn render(&self) -> (rows: Vec<String>)
        requires
            self.inv(),
        ensures
            rows@.len() == self@.dimension,
            forall|y: int| 0 <= y < self@.dimension ==> #[trigger] rows@[y]@ == row_view(self@, y),
    {
        let dim = self.dimension;
        let mut rows: Vec<String> = Vec::new();
        let mut y: usize = 0;
        while y < dim
            invariant
                self.inv(),
                dim == self.dimension,
                y <= dim,
                rows@.len() == y,
                forall|k: int| 0 <= k < y ==> #[trigger] rows@[k]@ == row_view(self@, k),
            decreases dim - y,
        {
            let mut row = String::new();
            let mut x: usize = 0;
            while x < dim
                invariant
                    self.inv(),
                    dim == self.dimension,
                    y < dim,
                    x <= dim,
                    row@.len() == x,
                    forall|k: int| 0 <= k < x ==> #[trigger] row@[k] == glyph(
                        self@.cell_xy(k, y as int),
                    ),
                decreases dim - x,
            {
                let coord = Coordinate { x, y };
                let index = self.to_index(coord);
                proof {
                    reveal_strlit("X");
                    reveal_strlit("O");
                    reveal_strlit(" ");
                }
                match self.data[index] {
                    Some(PositionState::Cross) => row.append("X"),
                    Some(PositionState::Nought) => row.append("O"),
                    None => row.append(" "),
                }
                x += 1;
            }
            proof {
                assert(row@ =~= row_view(self@, y as int));
            }
            rows.push(row);
            y += 1;
        }
        rows
    }
}

/// The row-major index of a valid coordinate lies within the grid.
pub proof fn lemma_idx_bounds(b: BoardView, pos: Coordinate)
    requires
        b.wf(),
        b.in_bounds(pos),
    ensures
        0 <= b.idx(pos) < b.cells.len(),
{
    assert((pos.x as int) + (pos.y as int) * b.dimension < b.dimension * b.dimension)
        by (nonlinear_arith)
        requires
            (pos.x as int) < b.dimension,
            (pos.y as int) < b.dimension,
    ;
}

/// The board invariant is preserved by every placement attempt: the move
/// count still equals the number of occupied cells, and the grid keeps
/// its size, whether the attempt succeeded or was rejected.
pub proof fn lemma_place_preserves_wf(b: BoardView, pos: Coordinate, m: PositionState)
    requires
        b.wf(),
    ensures
        b.place(pos, m).0.wf(),
{
    if b.in_bounds(pos) && b.cell(pos) is None {
        lemma_idx_bounds(b, pos);
        lemma_count_occupied_update(b.cells, b.idx(pos), m);
    }
}

/// A win reported through `wins_at` exhibits a full line: one of the
/// up-to-four lines through `pos` is valid and filled with `m`.
pub proof fn lemma_wins_at_witness(b: BoardView, pos: Coordinate, m: PositionState)
    requires
        b.wins_at(pos, m),
        b.in_bounds(pos),
    ensures
        exists|line: Line| #[trigger] b.line_full(line, m) && b.line_valid(line),
{
    if b.line_full(Line::Column(pos.x), m) {
        assert(b.line_full(Line::Column(pos.x), m) && b.line_valid(Line::Column(pos.x)));
    } else if b.line_full(Line::Row(pos.y), m) {
        assert(b.line_full(Line::Row(pos.y), m) && b.line_valid(Line::Row(pos.y)));
    } else if pos.x == pos.y && b.line_full(Line::Diagonal, m) {
        assert(b.line_full(Line::Diagonal, m) && b.line_valid(Line::Diagonal));
    } else {
        assert(b.line_full(Line::AntiDiagonal, m) && b.line_valid(Line::AntiDiagonal));
    }
}

/// A mark, once placed, is never removed or overwritten: whatever later
/// placement is attempted, anywhere and with either outcome, an occupied
/// cell keeps its mark.
pub proof fn lemma_marks_persist(
    b: BoardView,
    pos: Coordinate,
    m: PositionState,
    q: Coordinate,
)
    requires
        b.wf(),
        b.in_bounds(q),
        b.cell(q) is Some,
    ensures
        b.place(pos, m).0.cell(q) == b.cell(q),
{
    if b.in_bounds(pos) && b.cell(pos) is None {
        lemma_idx_bounds(b, pos);
        lemma_idx_bounds(b, q);
    }
}

/// Placing at the same coordinate twice is rejected: once a placement at
/// `pos` has succeeded, a second attempt at `pos` — by either mark —
/// yields `InvalidMove` carrying the occupying mark, and leaves the board
/// unchanged.
pub proof fn lemma_place_twice_rejected(
    b: BoardView,
    pos: Coordinate,
    m1: PositionState,
    m2: PositionState,
)
    requires
        b.wf(),
        b.place(pos, m1).1 is Ok,
    ensures
        ({
            let placed = b.place(pos, m1).0;
            placed.place(pos, m2) == (placed, Err::<GameResult, MoveError>(
                MoveError::InvalidMove(m2, m1),
            ))
        }),
{
    let placed = b.place(pos, m1).0;
    lemma_idx_bounds(b, pos);
    assert(placed.cell(pos) == Some(m1));
}

/// Completing a line wins, and nothing else does: a successful placement
/// of `m` at `pos` is classified as `m`'s win exactly when it leaves a
/// full line of `m` through `pos` — its column, its row, or a diagonal it
/// lies on. Moreover no such line was full before the placement, so the
/// win is reported on the placement that completes the line and on no
/// earlier one.
pub proof fn lemma_win_iff_completed_line(b: BoardView, pos: Coordinate, m: PositionState)
    requires
        b.wf(),
        b.in_bounds(pos),
        b.cell(pos) is None,
    ensures
        ({
            let (placed, r) = b.place(pos, m);
            &&& (r == Ok::<GameResult, MoveError>(win_of(m)) <==> {
                ||| placed.line_full(Line::Column(pos.x), m)
                ||| placed.line_full(Line::Row(pos.y), m)
                ||| (pos.x == pos.y && placed.line_full(Line::Diagonal, m))
                ||| (pos.x + pos.y == b.dimension - 1 && placed.line_full(Line::AntiDiagonal, m))
            })
            &&& !b.line_full(Line::Column(pos.x), m)
            &&& !b.line_full(Line::Row(pos.y), m)
            &&& pos.x == pos.y ==> !b.line_full(Line::Diagonal, m)
            &&& pos.x + pos.y == b.dimension - 1 ==> !b.line_full(Line::AntiDiagonal, m)
        }),
{
    let (placed, r) = b.place(pos, m);
    assert(b.line_cell(Line::Column(pos.x), pos.y as int) == b.cell(pos));
    assert(b.line_cell(Line::Row(pos.y), pos.x as int) == b.cell(pos));
    if pos.x == pos.y {
        assert(b.line_cell(Line::Diagonal, pos.x as int) == b.cell(pos));
    }
    if pos.x + pos.y == b.dimension - 1 {
        assert(b.line_cell(Line::AntiDiagonal, pos.x as int) == b.cell(pos));
    }
    if placed.wins_at(pos, m) {
        assert(win_of(m) != GameResult::Draw && win_of(m) != GameResult::Ongoing);
    }
}

} // verus!
