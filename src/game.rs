use vstd::prelude::*;
use vstd::string::StringExecFns;
use crate::board::{
    all_taken, cell_text, count_of, has_line_of, lemma_count_update, lemma_marks_fit,
    line_filled, mark_symbol, Board, Cell, Mark, CELLS, LINES,
};
use crate::input::{decimal_of, parse_decimal, trim_text, trimmed};

verus! {

/// Where the game stands after a move.
#[derive(Clone, Copy, Debug, PartialEq, Eq, Structural)]
pub enum Outcome {
    InProgress,
    Win(Mark),
    Draw,
}

/// Why a line of input was not taken as a move.
#[derive(Clone, Copy, Debug, PartialEq, Eq, Structural)]
pub enum MoveError {
    /// The text is not an unsigned decimal number.
    NotANumber,
    /// The number is outside 1 to 9.
    OutOfRange,
    /// The cell with this number (1 to 9) already holds a mark.
    Occupied(usize),
}

/// The mark counts agree with the turn taking: `MarkA` moves first, so it
/// has as many marks as `MarkB` when `MarkA` is to move, and one more when
/// `MarkB` is.
pub open spec fn turn_matches(cells: Seq<Cell>, current: Mark) -> bool {
    &&& current == Mark::MarkA ==> count_of(cells, Cell::MarkA) == count_of(cells, Cell::MarkB)
    &&& current == Mark::MarkB ==> count_of(cells, Cell::MarkA) == count_of(cells, Cell::MarkB)
        + 1
}

/// A state that play from a new game can reach: nine cells, and while the
/// game goes on the counts match the player to move; once it is over, they
/// match the player who moved last.
pub open spec fn valid_state(cells: Seq<Cell>, current: Mark) -> bool {
    &&& cells.len() == CELLS
    &&& !is_over(cells) ==> turn_matches(cells, current)
    &&& is_over(cells) ==> turn_matches(cells, current.other())
}

/// Nobody can move any more: a mark fills a line, or the board is full.
pub open spec fn is_over(cells: Seq<Cell>) -> bool {
    has_line_of(cells, Mark::MarkA) || has_line_of(cells, Mark::MarkB) || all_taken(cells)
}

/// How the game stands once `mover` has just moved: a win is checked first,
/// then a draw.
pub open spec fn outcome_after(cells: Seq<Cell>, mover: Mark) -> Outcome {
    if has_line_of(cells, mover) {
        Outcome::Win(mover)
    } else if all_taken(cells) {
        Outcome::Draw
    } else {
        Outcome::InProgress
    }
}

/// What choosing cell number `n` (counted from 1) gives.
pub open spec fn move_result(cells: Seq<Cell>, current: Mark, n: int) -> Result<
    Outcome,
    MoveError,
> {
    if n < 1 || n > 9 {
        Err(MoveError::OutOfRange)
    } else if cells[n - 1] != Cell::Empty {
        Err(MoveError::Occupied(n as usize))
    } else {
        Ok(outcome_after(cells.update(n - 1, current.cell()), current))
    }
}

/// The board and the player to move after choosing cell number `n`: a
/// rejected choice changes nothing; the turn passes only while the game goes on.
pub open spec fn move_next(cells: Seq<Cell>, current: Mark, n: int) -> (Seq<Cell>, Mark) {
    match move_result(cells, current, n) {
        Err(_) => (cells, current),
        Ok(Outcome::InProgress) => (cells.update(n - 1, current.cell()), current.other()),
        Ok(_) => (cells.update(n - 1, current.cell()), current),
    }
}

/// What a trimmed line of input gives.
pub open spec fn input_result(cells: Seq<Cell>, current: Mark, text: Seq<char>) -> Result<
    Outcome,
    MoveError,
> {
    match decimal_of(text) {
        None => Err(MoveError::NotANumber),
        Some(n) => move_result(cells, current, n as int),
    }
}

/// The board and the player to move after a trimmed line of input.
pub open spec fn input_next(cells: Seq<Cell>, current: Mark, text: Seq<char>) -> (
    Seq<Cell>,
    Mark,
) {
    match decimal_of(text) {
        None => (cells, current),
        Some(n) => move_next(cells, current, n as int),
    }
}

/// The turn controller: the board and the player whose turn it is.
pub struct Game {
    board: Board,
    current: Mark,
}

impl View for Game {
    type V = (Seq<Cell>, Mark);

    closed spec fn view(&self) -> (Seq<Cell>, Mark) {
        (self.board@, self.current)
    }
}

impl Game {
    /// The game is in a state that play from a new game can reach.
    pub open spec fn wf(&self) -> bool {
        valid_state(self@.0, self@.1)
    }

    /// A new game: an empty board, `MarkA` to move.
    pub fn new() -> (r: Game)
        ensures
            r.wf(),
            r@.1 == Mark::MarkA,
            forall|i: int| 0 <= i < CELLS ==> r@.0[i] == Cell::Empty,
    {
        let board = Board::new();
        Game { board, current: Mark::MarkA }
    }

    /// The board.
    pub fn board(&self) -> (r: &Board)
        ensures
            r@ == self@.0,
    {
        &self.board
    }

    /// The player whose turn it is.
    pub fn current(&self) -> (r: Mark)
        ensures
            r == self@.1,
    {
        self.current
    }

    /// Chooses cell number `n` (1 to 9) for the player to move.
    pub fn play(&mut self, n: usize) -> (r: Result<Outcome, MoveError>)
        requires
            old(self).wf(),
            !is_over(old(self)@.0),
        ensures
            final(self).wf(),
            r == move_result(old(self)@.0, old(self)@.1, n as int),
            final(self)@ == move_next(old(self)@.0, old(self)@.1, n as int),
            r is Err ==> final(self)@ == old(self)@,
            r == Ok::<Outcome, MoveError>(Outcome::InProgress) ==> final(self)@.1 == old(self)@.1.other(),
    {
        if n < 1 || n > 9 {
            return Err(MoveError::OutOfRange);
        }
        let index = n - 1;
        if self.board.occupied(index) {
            return Err(MoveError::Occupied(n));
        }
        let ghost before = self@;
        self.board.place(index, self.current);
        proof {
            lemma_place_keeps_balance(before.0, before.1, index as int);
        }
        if self.board.has_line(self.current) {
            Ok(Outcome::Win(self.current))
        } else if self.board.is_full() {
            Ok(Outcome::Draw)
        } else {
            self.current = self.current.other();
            Ok(Outcome::InProgress)
        }
    }

    /// Takes a line of input whose surrounding whitespace is already gone as
    /// the move of the player to move.
    pub fn submit_trimmed(&mut self, text: &str) -> (r: Result<Outcome, MoveError>)
        requires
            old(self).wf(),
            !is_over(old(self)@.0),
        ensures
            final(self).wf(),
            r == input_result(old(self)@.0, old(self)@.1, text@),
            final(self)@ == input_next(old(self)@.0, old(self)@.1, text@),
            r is Err ==> final(self)@ == old(self)@,
            r == Ok::<Outcome, MoveError>(Outcome::InProgress) ==> final(self)@.1 == old(
                self,
            )@.1.other(),
    {
        match parse_decimal(text) {
            None => Err(MoveError::NotANumber),
            Some(n) => self.play(n),
        }
    }

    /// Takes a line of input, surrounding whitespace ignored, as the move of
    /// the player to move.
    pub fn submit(&mut self, line: &str) -> (r: Result<Outcome, MoveError>)
        requires
            old(self).wf(),
            !is_over(old(self)@.0),
        ensures
            final(self).wf(),
            r == input_result(old(self)@.0, old(self)@.1, trimmed(line@)),
            final(self)@ == input_next(old(self)@.0, old(self)@.1, trimmed(line@)),
            r is Err ==> final(self)@ == old(self)@,
            r == Ok::<Outcome, MoveError>(Outcome::InProgress) ==> final(self)@.1 == old(
                self,
            )@.1.other(),
    {
        let text = trim_text(line);
        self.submit_trimmed(text)
    }

    /// Whether the game has ended in a win or a draw.
    pub fn is_finished(&self) -> (r: bool)
        requires
            self.wf(),
        ensures
            r == is_over(self@.0),
    {
        self.board.has_line(Mark::MarkA) || self.board.has_line(Mark::MarkB)
            || self.board.is_full()
    }

    /// The prompt for the player to move.
    pub fn prompt(&self) -> (r: String)
        ensures
            r@ == "Player "@ + cell_text(self@.1.cell()) + ", enter a move (1-9): "@,
    {
        let mut out = String::from_str("Player ");
        out.append(mark_symbol(self.current));
        out.append(", enter a move (1-9): ");
        out
    }
}

/// The text of cell number `n`, 1 to 9.
pub open spec fn number_text(n: int) -> Seq<char> {
    if n == 1 {
        "1"@
    } else if n == 2 {
        "2"@
    } else if n == 3 {
        "3"@
    } else if n == 4 {
        "4"@
    } else if n == 5 {
        "5"@
    } else if n == 6 {
        "6"@
    } else if n == 7 {
        "7"@
    } else if n == 8 {
        "8"@
    } else {
        "9"@
    }
}

/// The text that reports a rejected move.
pub open spec fn error_text(e: MoveError) -> Seq<char> {
    match e {
        MoveError::NotANumber => "Invalid input. Please enter a number from 1 to 9."@,
        MoveError::OutOfRange => "Out of range. Please enter a number from 1 to 9."@,
        MoveError::Occupied(n) => "Cell "@ + number_text(n as int)
            + " is already occupied. Try again."@,
    }
}

/// The text that announces how the game stands.
pub open spec fn outcome_text(o: Outcome) -> Seq<char> {
    match o {
        Outcome::InProgress => Seq::empty(),
        Outcome::Win(m) => "Player "@ + cell_text(m.cell()) + " wins!"@,
        Outcome::Draw => "It's a draw!"@,
    }
}

/// The digit of cell number `n`.
fn number_symbol(n: usize) -> (r: &'static str)
    requires
        1 <= n <= 9,
    ensures
        r@ == number_text(n as int),
{
    if n == 1 {
        "1"
    } else if n == 2 {
        "2"
    } else if n == 3 {
        "3"
    } else if n == 4 {
        "4"
    } else if n == 5 {
        "5"
    } else if n == 6 {
        "6"
    } else if n == 7 {
        "7"
    } else if n == 8 {
        "8"
    } else {
        "9"
    }
}

impl MoveError {
    /// The message that reports this error to the player.
    pub fn message(&self) -> (r: String)
        requires
            *self matches MoveError::Occupied(n) ==> 1 <= n <= 9,
        ensures
            r@ == error_text(*self),
    {
        match self {
            MoveError::NotANumber => String::from_str(
                "Invalid input. Please enter a number from 1 to 9.",
            ),
            MoveError::OutOfRange => String::from_str(
                "Out of range. Please enter a number from 1 to 9.",
            ),
            MoveError::Occupied(n) => {
                let mut out = String::from_str("Cell ");
                out.append(number_symbol(*n));
                out.append(" is already occupied. Try again.");
                out
            },
        }
    }
}

impl Outcome {
    /// The announcement of a finished game; empty while it goes on.
    pub fn announcement(&self) -> (r: String)
        ensures
            r@ == outcome_text(*self),
    {
        match self {
            Outcome::InProgress => String::new(),
            Outcome::Win(m) => {
                let mut out = String::from_str("Player ");
                out.append(mark_symbol(*m));
                out.append(" wins!");
                out
            },
            Outcome::Draw => String::from_str("It's a draw!"),
        }
    }
}

/// The board and the player to move after trying the cell numbers `moves`
/// in turn, until the game is over.
pub open spec fn play_moves(cells: Seq<Cell>, current: Mark, moves: Seq<int>) -> (
    Seq<Cell>,
    Mark,
)
    decreases moves.len(),
{
    if moves.len() == 0 || is_over(cells) {
        (cells, current)
    } else {
        let (next_cells, next_mark) = move_next(cells, current, moves[0]);
        play_moves(next_cells, next_mark, moves.drop_first())
    }
}

/// One move keeps the state valid, and a mark once placed stays; an
/// accepted move fills exactly the chosen cell, which was empty.
pub proof fn lemma_move_keeps_state(cells: Seq<Cell>, current: Mark, n: int)
    requires
        valid_state(cells, current),
        !is_over(cells),
    ensures
        valid_state(move_next(cells, current, n).0, move_next(cells, current, n).1),
        forall|i: int|
            0 <= i < CELLS && cells[i] != Cell::Empty ==> move_next(cells, current, n).0[i]
                == cells[i],
        move_result(cells, current, n) is Ok ==> cells[n - 1] == Cell::Empty && move_next(
            cells,
            current,
            n,
        ).0 == cells.update(n - 1, current.cell()),
{
    if move_result(cells, current, n) is Ok {
        lemma_place_keeps_balance(cells, current, n - 1);
    }
}

/// Along any sequence of moves from a valid state, the state stays valid,
/// no mark is ever placed on an occupied cell, and at most nine marks are
/// on the board.
pub proof fn lemma_moves_keep_board_sound(cells: Seq<Cell>, current: Mark, moves: Seq<int>)
    requires
        valid_state(cells, current),
    ensures
        valid_state(play_moves(cells, current, moves).0, play_moves(cells, current, moves).1),
        forall|i: int|
            0 <= i < CELLS && cells[i] != Cell::Empty ==> play_moves(cells, current, moves).0[i]
                == cells[i],
        count_of(play_moves(cells, current, moves).0, Cell::MarkA) + count_of(
            play_moves(cells, current, moves).0,
            Cell::MarkB,
        ) <= CELLS,
    decreases moves.len(),
{
    if moves.len() > 0 && !is_over(cells) {
        let (next_cells, next_mark) = move_next(cells, current, moves[0]);
        lemma_move_keeps_state(cells, current, moves[0]);
        lemma_moves_keep_board_sound(next_cells, next_mark, moves.drop_first());
    }
    lemma_marks_fit(play_moves(cells, current, moves).0);
}

/// After a line of input the turn passes if and only if the move was
/// accepted and the game goes on; a rejected line keeps the same player.
pub proof fn lemma_turn_alternates(cells: Seq<Cell>, current: Mark, text: Seq<char>)
    requires
        valid_state(cells, current),
        !is_over(cells),
    ensures
        input_result(cells, current, text) == Ok::<Outcome, MoveError>(Outcome::InProgress)
            ==> input_next(cells, current, text).1 == current.other(),
        input_result(cells, current, text) != Ok::<Outcome, MoveError>(Outcome::InProgress)
            ==> input_next(cells, current, text).1 == current,
{
}

/// Rejecting a line changes nothing, so the same line is rejected again in
/// the same way.
pub proof fn lemma_rejection_repeats(cells: Seq<Cell>, current: Mark, text: Seq<char>)
    requires
        valid_state(cells, current),
        !is_over(cells),
        input_result(cells, current, text) is Err,
    ensures
        input_next(cells, current, text) == (cells, current),
        input_result(
            input_next(cells, current, text).0,
            input_next(cells, current, text).1,
            text,
        ) == input_result(cells, current, text),
{
}

/// Placing the mover's mark on an empty cell keeps the counts in step with
/// the turn, whether or not the turn then passes.
proof fn lemma_place_keeps_balance(cells: Seq<Cell>, current: Mark, i: int)
    requires
        valid_state(cells, current),
        !is_over(cells),
        0 <= i < CELLS,
        cells[i] == Cell::Empty,
    ensures
        turn_matches(cells.update(i, current.cell()), current.other()),
        !has_line_of(cells.update(i, current.cell()), current.other()),
{
    let after = cells.update(i, current.cell());
    lemma_count_update(cells, i, current.cell(), Cell::MarkA);
    lemma_count_update(cells, i, current.cell(), Cell::MarkB);
    if has_line_of(after, current.other()) {
        let k = choose|k: int| 0 <= k < LINES && #[trigger] line_filled(after, current.other(), k);
        assert(line_filled(cells, current.other(), k));
    }
}

} // verus!
