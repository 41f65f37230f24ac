use vstd::prelude::*;

verus! {

/// One of the two players' marks.
#[derive(Clone, Copy, Debug, PartialEq, Eq, Structural)]
pub enum Mark {
    MarkA,
    MarkB,
}

/// What a cell of the grid holds.
#[derive(Clone, Copy, Debug, PartialEq, Eq, Structural)]
pub enum Cell {
    Empty,
    MarkA,
    MarkB,
}

impl Mark {
    /// The cell value that this mark leaves on the board.
    pub open spec fn spec_cell(self) -> Cell {
        match self {
            Mark::MarkA => Cell::MarkA,
            Mark::MarkB => Cell::MarkB,
        }
    }

    /// The mark of the other player.
    pub open spec fn spec_other(self) -> Mark {
        match self {
            Mark::MarkA => Mark::MarkB,
            Mark::MarkB => Mark::MarkA,
        }
    }

    /// The cell value that this mark leaves on the board.
    #[verifier::when_used_as_spec(spec_cell)]
    pub fn cell(self) -> (r: Cell)
        ensures
            r == self.spec_cell(),
    {
        match self {
            Mark::MarkA => Cell::MarkA,
            Mark::MarkB => Cell::MarkB,
        }
    }

    /// The mark of the other player.
    #[verifier::when_used_as_spec(spec_other)]
    pub fn other(self) -> (r: Mark)
        ensures
            r == self.spec_other(),
    {
        match self {
            Mark::MarkA => Mark::MarkB,
            Mark::MarkB => Mark::MarkA,
        }
    }
}

/// Number of cells of the grid.
pub const CELLS: usize = 9;

/// Number of win lines: three rows, three columns, two diagonals.
pub const LINES: usize = 8;

/// The `k`-th win line as three cell indices.
pub open spec fn win_line(k: int) -> (int, int, int) {
    if k == 0 {
        (0, 1, 2)
    } else if k == 1 {
        (3, 4, 5)
    } else if k == 2 {
        (6, 7, 8)
    } else if k == 3 {
        (0, 3, 6)
    } else if k == 4 {
        (1, 4, 7)
    } else if k == 5 {
        (2, 5, 8)
    } else if k == 6 {
        (0, 4, 8)
    } else {
        (2, 4, 6)
    }
}

/// All three cells of win line `k` hold `mark`.
pub open spec fn line_filled(cells: Seq<Cell>, mark: Mark, k: int) -> bool {
    let (a, b, c) = win_line(k);
    &&& cells[a] == mark.cell()
    &&& cells[b] == mark.cell()
    &&& cells[c] == mark.cell()
}

/// `mark` fills at least one win line.
pub open spec fn has_line_of(cells: Seq<Cell>, mark: Mark) -> bool {
    exists|k: int| 0 <= k < LINES && #[trigger] line_filled(cells, mark, k)
}

/// Every cell holds a mark.
pub open spec fn all_taken(cells: Seq<Cell>) -> bool {
    forall|i: int| 0 <= i < cells.len() ==> cells[i] != Cell::Empty
}

/// The `k`-th win line.
pub fn line_at(k: usize) -> (r: [usize; 3])
    requires
        k < LINES,
    ensures
        (r[0] as int, r[1] as int, r[2] as int) == win_line(k as int),
{
    if k == 0 {
        [0, 1, 2]
    } else if k == 1 {
        [3, 4, 5]
    } else if k == 2 {
        [6, 7, 8]
    } else if k == 3 {
        [0, 3, 6]
    } else if k == 4 {
        [1, 4, 7]
    } else if k == 5 {
        [2, 5, 8]
    } else if k == 6 {
        [0, 4, 8]
    } else {
        [2, 4, 6]
    }
}

/// How many cells of `cells` hold `c`.
pub open spec fn count_of(cells: Seq<Cell>, c: Cell) -> nat
    decreases cells.len(),
{
    if cells.len() == 0 {
        0
    } else {
        count_of(cells.drop_last(), c) + if cells.last() == c {
            1nat
        } else {
            0nat
        }
    }
}

/// Writing `v` at `i` changes the count of `c` by what leaves and what comes.
pub proof fn lemma_count_update(cells: Seq<Cell>, i: int, v: Cell, c: Cell)
    requires
        0 <= i < cells.len(),
    ensures
        count_of(cells.update(i, v), c) + (if cells[i] == c {
            1int
        } else {
            0int
        }) == count_of(cells, c) + (if v == c {
            1int
        } else {
            0int
        }),
    decreases cells.len(),
{
    let after = cells.update(i, v);
    if i < cells.len() - 1 {
        assert(after.drop_last() =~= cells.drop_last().update(i, v));
        lemma_count_update(cells.drop_last(), i, v, c);
    } else {
        assert(after.drop_last() =~= cells.drop_last());
    }
}

/// An empty board holds no mark.
pub proof fn lemma_empty_counts(cells: Seq<Cell>)
    requires
        forall|i: int| 0 <= i < cells.len() ==> cells[i] == Cell::Empty,
    ensures
        count_of(cells, Cell::MarkA) == 0,
        count_of(cells, Cell::MarkB) == 0,
    decreases cells.len(),
{
    if cells.len() > 0 {
        lemma_empty_counts(cells.drop_last());
    }
}

/// The two marks together take at most every cell.
pub proof fn lemma_marks_fit(cells: Seq<Cell>)
    ensures
        count_of(cells, Cell::MarkA) + count_of(cells, Cell::MarkB) <= cells.len(),
    decreases cells.len(),
{
    if cells.len() > 0 {
        lemma_marks_fit(cells.drop_last());
    }
}

/// Cells at strictly increasing positions `idx` that all hold `c` are
/// counted at least once each.
pub proof fn lemma_count_at_least(cells: Seq<Cell>, c: Cell, idx: Seq<int>)
    requires
        forall|j: int| 0 <= j < idx.len() ==> 0 <= #[trigger] idx[j] < cells.len(),
        forall|j: int| 0 <= j < idx.len() ==> cells[#[trigger] idx[j]] == c,
        forall|j: int, l: int| 0 <= j < l < idx.len() ==> idx[j] < idx[l],
    ensures
        count_of(cells, c) >= idx.len(),
    decreases cells.len(),
{
    if cells.len() == 0 {
        if idx.len() > 0 {
            assert(0 <= idx[0] < cells.len());
        }
    } else {
        let last = cells.len() - 1;
        let init = cells.drop_last();
        if idx.len() > 0 && idx.last() == last {
            let rest = idx.drop_last();
            assert forall|j: int| 0 <= j < rest.len() implies 0 <= #[trigger] rest[j] < last by {
                assert(idx[j] < idx[idx.len() - 1]);
            }
            assert forall|j: int| 0 <= j < rest.len() implies init[#[trigger] rest[j]] == c by {
                assert(cells[idx[j]] == c);
            }
            lemma_count_at_least(init, c, rest);
        } else {
            assert forall|j: int| 0 <= j < idx.len() implies 0 <= #[trigger] idx[j] < last by {
                if idx[j] == last {
                    assert(idx[idx.len() - 1] >= idx[j]);
                }
            }
            assert forall|j: int| 0 <= j < idx.len() implies init[#[trigger] idx[j]] == c by {
                assert(cells[idx[j]] == c);
            }
            lemma_count_at_least(init, c, idx);
        }
    }
}

/// A win line needs three cells of its mark, so a board with fewer than
/// three of them (an empty board among others) has no line of that mark.
pub proof fn lemma_line_needs_three_marks(cells: Seq<Cell>, mark: Mark)
    requires
        cells.len() == CELLS,
        count_of(cells, mark.cell()) < 3,
    ensures
        !has_line_of(cells, mark),
{
    if has_line_of(cells, mark) {
        let k = choose|k: int| 0 <= k < LINES && #[trigger] line_filled(cells, mark, k);
        let (a, b, c) = win_line(k);
        lemma_count_at_least(cells, mark.cell(), seq![a, b, c]);
    }
}

/// The text of one cell.
pub open spec fn cell_text(c: Cell) -> Seq<char> {
    match c {
        Cell::Empty => " "@,
        Cell::MarkA => "X"@,
        Cell::MarkB => "O"@,
    }
}

/// The text of the row that starts at cell `first`.
pub open spec fn row_text(cells: Seq<Cell>, first: int) -> Seq<char> {
    " "@ + cell_text(cells[first]) + " | "@ + cell_text(cells[first + 1]) + " | "@
        + cell_text(cells[first + 2]) + " \n"@
}

/// The board as text: three rows, separators between them, a blank line
/// before and after.
pub open spec fn board_text(cells: Seq<Cell>) -> Seq<char> {
    "\n"@ + row_text(cells, 0) + "---+---+---\n"@ + row_text(cells, 3) + "---+---+---\n"@
        + row_text(cells, 6) + "\n"@
}

/// The symbol that shows a cell.
pub fn cell_symbol(c: Cell) -> (r: &'static str)
    ensures
        r@ == cell_text(c),
{
    match c {
        Cell::Empty => " ",
        Cell::MarkA => "X",
        Cell::MarkB => "O",
    }
}

/// The symbol of a mark.
pub fn mark_symbol(m: Mark) -> (r: &'static str)
    ensures
        r@ == cell_text(m.cell()),
{
    cell_symbol(m.cell())
}

/// The 3x3 grid, cells indexed 0 to 8 row by row.
pub struct Board {
    cells: [Cell; 9],
}

impl View for Board {
    type V = Seq<Cell>;

    closed spec fn view(&self) -> Seq<Cell> {
        self.cells@
    }
}

impl Board {
    /// A board with every cell empty.
    pub fn new() -> (r: Board)
        ensures
            r@.len() == CELLS,
            forall|i: int| 0 <= i < CELLS ==> r@[i] == Cell::Empty,
            count_of(r@, Cell::MarkA) == 0,
            count_of(r@, Cell::MarkB) == 0,
            !has_line_of(r@, Mark::MarkA),
            !has_line_of(r@, Mark::MarkB),
            !all_taken(r@),
    {
        let r = Board { cells: [Cell::Empty; 9] };
        proof {
            lemma_empty_counts(r@);
            lemma_line_needs_three_marks(r@, Mark::MarkA);
            lemma_line_needs_three_marks(r@, Mark::MarkB);
            assert(r@[0] == Cell::Empty);
        }
        r
    }

    /// What cell `index` holds.
    pub fn cell(&self, index: usize) -> (r: Cell)
        requires
            index < CELLS,
        ensures
            r == self@[index as int],
    {
        self.cells[index]
    }

    /// Whether cell `index` holds a mark.
    pub fn occupied(&self, index: usize) -> (r: bool)
        requires
            index < CELLS,
        ensures
            r == (self@[index as int] != Cell::Empty),
    {
        self.cells[index] != Cell::Empty
    }

    /// Puts `mark` on the empty cell `index`.
    pub fn place(&mut self, index: usize, mark: Mark)
        requires
            index < CELLS,
            old(self)@[index as int] == Cell::Empty,
        ensures
            final(self)@ == old(self)@.update(index as int, mark.cell()),
    {
        self.cells[index] = mark.cell();
    }

    /// Whether `mark` fills a whole row, column or diagonal.
    pub fn has_line(&self, mark: Mark) -> (r: bool)
        ensures
            r == has_line_of(self@, mark),
    {
        check_win(self, mark)
    }

    /// Appends the row that starts at cell `first` to `out`.
    fn render_row(&self, first: usize, out: &mut String)
        requires
            first + 2 < CELLS,
        ensures
            final(out)@ == old(out)@ + row_text(self@, first as int),
    {
        out.append(" ");
        out.append(cell_symbol(self.cells[first]));
        out.append(" | ");
        out.append(cell_symbol(self.cells[first + 1]));
        out.append(" | ");
        out.append(cell_symbol(self.cells[first + 2]));
        out.append(" \n");
    }

    /// The board as text, ready to display.
    pub fn render(&self) -> (r: String)
        ensures
            r@ == board_text(self@),
    {
        let mut out = String::new();
        out.append("\n");
        self.render_row(0, &mut out);
        out.append("---+---+---\n");
        self.render_row(3, &mut out);
        out.append("---+---+---\n");
        self.render_row(6, &mut out);
        out.append("\n");
        out
    }

    /// Whether every cell holds a mark.
    pub fn is_full(&self) -> (r: bool)
        ensures
            r == all_taken(self@),
    {
        let mut i: usize = 0;
        while i < CELLS
            invariant
                i <= CELLS,
                self@.len() == CELLS,
                forall|j: int| 0 <= j < i ==> self@[j] != Cell::Empty,
            decreases CELLS - i,
        {
            if self.cells[i] == Cell::Empty {
                return false;
            }
            i += 1;
        }
        true
    }
}

/// Whether `player` fills one of the eight win lines of `board`.
pub fn check_win(board: &Board, player: Mark) -> (r: bool)
    ensures
        r == has_line_of(board@, player),
{
    let target = player.cell();
    let mut k: usize = 0;
    while k < LINES
        invariant
            k <= LINES,
            board@.len() == CELLS,
            target == player.cell(),
            forall|j: int| 0 <= j < k ==> !line_filled(board@, player, j),
        decreases LINES - k,
    {
        let line = line_at(k);
        if board.cells[line[0]] == target && board.cells[line[1]] == target
            && board.cells[line[2]] == target {
            assert(line_filled(board@, player, k as int));
            return true;
        }
        k += 1;
    }
    false
}

} // verus!
