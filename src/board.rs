use vstd::prelude::*;

verus! {

/// One of the two roles in a match.
#[derive(Clone, Copy, Debug, PartialEq, Eq, Structural)]
pub enum Player {
    X,
    O,
}

/// The state of one square of the board.
#[derive(Clone, Copy, Debug, PartialEq, Eq, Structural)]
pub enum Cell {
    Empty,
    Mark(Player),
}

impl Player {
    pub open spec fn opponent(self) -> Player {
        match self {
            Player::X => Player::O,
            Player::O => Player::X,
        }
    }

    /// The role that moves after this one.
    pub fn other(self) -> (r: Player)
        ensures
            r == self.opponent(),
    {
        match self {
            Player::X => Player::O,
            Player::O => Player::X,
        }
    }

    pub open spec fn symbol_spec(self) -> char {
        match self {
            Player::X => 'X',
            Player::O => 'O',
        }
    }
}

impl Cell {
    pub open spec fn symbol_spec(self) -> char {
        match self {
            Cell::Empty => ' ',
            Cell::Mark(p) => p.symbol_spec(),
        }
    }

    /// The character a cell is shown as: a space, `X` or `O`.
    pub fn symbol(self) -> (r: char)
        ensures
            r == self.symbol_spec(),
    {
        match self {
            Cell::Empty => ' ',
            Cell::Mark(Player::X) => 'X',
            Cell::Mark(Player::O) => 'O',
        }
    }
}

/// Position of (row, col) in the row-major sequence of cells.
pub open spec fn idx(row: int, col: int) -> int {
    3 * row + col
}

pub open spec fn cell_at(b: Seq<Cell>, row: int, col: int) -> Cell {
    b[idx(row, col)]
}

pub open spec fn holds(b: Seq<Cell>, row: int, col: int, m: Player) -> bool {
    cell_at(b, row, col) == Cell::Mark(m)
}

pub open spec fn row_full(b: Seq<Cell>, row: int, m: Player) -> bool {
    holds(b, row, 0, m) && holds(b, row, 1, m) && holds(b, row, 2, m)
}

pub open spec fn col_full(b: Seq<Cell>, col: int, m: Player) -> bool {
    holds(b, 0, col, m) && holds(b, 1, col, m) && holds(b, 2, col, m)
}

/// The main diagonal, from the top left to the bottom right.
pub open spec fn diag_full(b: Seq<Cell>, m: Player) -> bool {
    holds(b, 0, 0, m) && holds(b, 1, 1, m) && holds(b, 2, 2, m)
}

/// The anti-diagonal, from the bottom left to the top right.
pub open spec fn anti_diag_full(b: Seq<Cell>, m: Player) -> bool {
    holds(b, 2, 0, m) && holds(b, 1, 1, m) && holds(b, 0, 2, m)
}

/// Some of the eight lines of the board is filled entirely with `m`.
pub open spec fn has_line(b: Seq<Cell>, m: Player) -> bool {
    row_full(b, 0, m) || row_full(b, 1, m) || row_full(b, 2, m) || col_full(b, 0, m) || col_full(
        b,
        1,
        m,
    ) || col_full(b, 2, m) || diag_full(b, m) || anti_diag_full(b, m)
}

/// The cell (row, col) holds `m` and lies on a line filled entirely with `m`.
pub open spec fn wins_through(b: Seq<Cell>, row: int, col: int, m: Player) -> bool {
    holds(b, row, col, m) && (row_full(b, row, m) || col_full(b, col, m) || (row == col
        && diag_full(b, m)) || (row + col == 2 && anti_diag_full(b, m)))
}

pub open spec fn empty_board() -> Seq<Cell> {
    Seq::new(9, |i: int| Cell::Empty)
}

/// Number of non-empty cells in `b`.
pub open spec fn filled(b: Seq<Cell>) -> nat
    decreases b.len(),
{
    if b.len() == 0 {
        0
    } else {
        filled(b.drop_last()) + if b.last() == Cell::Empty {
            0nat
        } else {
            1nat
        }
    }
}

/// Marking an empty cell adds one to the number of filled cells.
pub proof fn lemma_filled_mark(b: Seq<Cell>, i: int, c: Cell)
    requires
        0 <= i < b.len(),
        b[i] == Cell::Empty,
        c != Cell::Empty,
    ensures
        filled(b.update(i, c)) == filled(b) + 1,
    decreases b.len(),
{
    let u = b.update(i, c);
    if i == b.len() - 1 {
        assert(u.drop_last() =~= b.drop_last());
    } else {
        assert(u.drop_last() =~= b.drop_last().update(i, c));
        lemma_filled_mark(b.drop_last(), i, c);
    }
}

/// A sequence of empty cells has no filled cell.
pub proof fn lemma_filled_empty(b: Seq<Cell>)
    requires
        forall|i: int| 0 <= i < b.len() ==> b[i] == Cell::Empty,
    ensures
        filled(b) == 0,
    decreases b.len(),
{
    if b.len() > 0 {
        lemma_filled_empty(b.drop_last());
    }
}

/// The filled cells of `b` are at most its length.
pub proof fn lemma_filled_bound(b: Seq<Cell>)
    ensures
        filled(b) <= b.len(),
    decreases b.len(),
{
    if b.len() > 0 {
        lemma_filled_bound(b.drop_last());
    }
}

/// Marking an empty cell with `m` on a board holding no line of `m`: a line
/// of `m` appears exactly when the marked cell completes one, and the lines of
/// the other role are unaffected.
pub proof fn lemma_line_through_move(b: Seq<Cell>, row: int, col: int, m: Player)
    requires
        b.len() == 9,
        0 <= row < 3,
        0 <= col < 3,
        cell_at(b, row, col) == Cell::Empty,
        !has_line(b, m),
    ensures
        has_line(b.update(idx(row, col), Cell::Mark(m)), m) == wins_through(
            b.update(idx(row, col), Cell::Mark(m)),
            row,
            col,
            m,
        ),
        has_line(b.update(idx(row, col), Cell::Mark(m)), m.opponent()) == has_line(
            b,
            m.opponent(),
        ),
{
}

/// A fixed 3x3 grid of cells, rows top to bottom, columns left to right.
#[derive(Clone, Debug)]
pub struct Board {
    cells: Vec<Cell>,
}

impl View for Board {
    type V = Seq<Cell>;

    closed spec fn view(&self) -> Seq<Cell> {
        self.cells@
    }
}

impl Board {
    pub open spec fn wf(&self) -> bool {
        self@.len() == 9
    }

    /// A board with every cell empty.
    pub fn new() -> (b: Board)
        ensures
            b.wf(),
            b@ == empty_board(),
    {
        let mut cells: Vec<Cell> = Vec::new();
        let mut i: usize = 0;
        while i < 9
            invariant
                i <= 9,
                cells@.len() == i,
                forall|j: int| 0 <= j < i ==> cells@[j] == Cell::Empty,
            decreases 9 - i,
        {
            cells.push(Cell::Empty);
            i = i + 1;
        }
        let b = Board { cells };
        assert(b@ =~= empty_board());
        b
    }

    /// The cell at zero-based (row, col).
    pub fn get(&self, row: usize, col: usize) -> (c: Cell)
        requires
            self.wf(),
            row < 3,
            col < 3,
        ensures
            c == cell_at(self@, row as int, col as int),
    {
        self.cells[3 * row + col]
    }

    /// Writes `mark` into the cell at zero-based (row, col).
    pub fn set(&mut self, row: usize, col: usize, mark: Player)
        requires
            old(self).wf(),
            row < 3,
            col < 3,
        ensures
            final(self)@ == old(self)@.update(idx(row as int, col as int), Cell::Mark(mark)),
    {
        self.cells.set(3 * row + col, Cell::Mark(mark));
    }

    /// Whether the cell at zero-based (row, col) holds a mark.
    pub fn is_occupied(&self, row: usize, col: usize) -> (r: bool)
        requires
            self.wf(),
            row < 3,
            col < 3,
        ensures
            r == (cell_at(self@, row as int, col as int) != Cell::Empty),
    {
        match self.get(row, col) {
            Cell::Empty => false,
            Cell::Mark(_) => true,
        }
    }

    fn holds_mark(&self, row: usize, col: usize, mark: Player) -> (r: bool)
        requires
            self.wf(),
            row < 3,
            col < 3,
        ensures
            r == holds(self@, row as int, col as int, mark),
    {
        match self.get(row, col) {
            Cell::Empty => false,
            Cell::Mark(p) => p == mark,
        }
    }

    /// Whether the cell at zero-based (row, col) holds `mark` and completes a
    /// line of `mark`: its row, its column, or a diagonal that it lies on.
    /// Only the lines through that cell are examined, row first, then column,
    /// then diagonals.
    pub fn wins(&self, row: usize, col: usize, mark: Player) -> (r: bool)
        requires
            self.wf(),
            row < 3,
            col < 3,
        ensures
            r == wins_through(self@, row as int, col as int, mark),
    {
        if !self.holds_mark(row, col, mark) {
            return false;
        }
        if self.holds_mark(row, 0, mark) && self.holds_mark(row, 1, mark) && self.holds_mark(
            row,
            2,
            mark,
        ) {
            return true;
        }
        if self.holds_mark(0, col, mark) && self.holds_mark(1, col, mark) && self.holds_mark(
            2,
            col,
            mark,
        ) {
            return true;
        }
        if row == col && self.holds_mark(0, 0, mark) && self.holds_mark(1, 1, mark)
            && self.holds_mark(2, 2, mark) {
            return true;
        }
        if row + col == 2 && self.holds_mark(2, 0, mark) && self.holds_mark(1, 1, mark)
            && self.holds_mark(0, 2, mark) {
            return true;
        }
        false
    }

    /// The characters of `row` when shown: ` a | b | c `.
    pub open spec fn row_text(b: Seq<Cell>, row: int) -> Seq<char> {
        seq![
            ' ',
            cell_at(b, row, 0).symbol_spec(),
            ' ',
            '|',
            ' ',
            cell_at(b, row, 1).symbol_spec(),
            ' ',
            '|',
            ' ',
            cell_at(b, row, 2).symbol_spec(),
            ' ',
        ]
    }

    pub open spec fn separator_text() -> Seq<char> {
        seq!['\n', '-', '-', '-', '-', '-', '-', '-', '-', '-', '-', '-', '\n']
    }

    /// The board as text: a leading newline, then the three rows separated
    /// by lines of dashes.
    pub open spec fn rendered(b: Seq<Cell>) -> Seq<char> {
        seq!['\n'] + Self::row_text(b, 0) + Self::separator_text() + Self::row_text(b, 1)
            + Self::separator_text() + Self::row_text(b, 2)
    }

    fn push_row(&self, out: &mut Vec<char>, row: usize)
        requires
            self.wf(),
            row < 3,
        ensures
            final(out)@ == old(out)@ + Self::row_text(self@, row as int),
    {
        out.push(' ');
        out.push(self.get(row, 0).symbol());
        out.push(' ');
        out.push('|');
        out.push(' ');
        out.push(self.get(row, 1).symbol());
        out.push(' ');
        out.push('|');
        out.push(' ');
        out.push(self.get(row, 2).symbol());
        out.push(' ');
        assert(out@ =~= old(out)@ + Self::row_text(self@, row as int));
    }

    fn push_separator(out: &mut Vec<char>)
        ensures
            final(out)@ == old(out)@ + Self::separator_text(),
    {
        out.push('\n');
        let mut i: usize = 0;
        while i < 11
            invariant
                i <= 11,
                out@.len() == old(out)@.len() + 1 + i,
                out@.subrange(0, old(out)@.len() as int) == old(out)@,
                out@[old(out)@.len() as int] == '\n',
                forall|j: int| old(out)@.len() + 1 <= j < out@.len() ==> out@[j] == '-',
            decreases 11 - i,
        {
            out.push('-');
            i = i + 1;
        }
        out.push('\n');
        assert(out@ =~= old(out)@ + Self::separator_text());
    }

    /// The board as text, each cell shown by its symbol.
    pub fn render(&self) -> (r: Vec<char>)
        requires
            self.wf(),
        ensures
            r@ == Self::rendered(self@),
    {
        let mut out: Vec<char> = Vec::new();
        out.push('\n');
        self.push_row(&mut out, 0);
        Self::push_separator(&mut out);
        self.push_row(&mut out, 1);
        Self::push_separator(&mut out);
        self.push_row(&mut out, 2);
        assert(out@ =~= Self::rendered(self@));
        out
    }


    /// A board from its nine cells in row-major order; `None` for any other
    /// number of cells.
    pub fn from_cells(cells: Vec<Cell>) -> (r: Option<Board>)
        ensures
            r is Some <==> cells@.len() == 9,
            r is Some ==> r->Some_0@ == cells@,
    {
        if cells.len() == 9 {
            Some(Board { cells })
        } else {
            None
        }
    }

    /// The nine cells in row-major order.
    pub fn cells(&self) -> (r: &Vec<Cell>)
        ensures
            r@ == self@,
    {
        &self.cells
    }

    /// The number of marked cells.
    pub fn filled_count(&self) -> (n: u8)
        requires
            self.wf(),
        ensures
            n == filled(self@),
    {
        let mut n: u8 = 0;
        let mut i: usize = 0;
        while i < 9
            invariant
                self.wf(),
                i <= 9,
                n == filled(self@.subrange(0, i as int)),
                n <= i,
            decreases 9 - i,
        {
            proof {
                assert(self@.subrange(0, i + 1).drop_last() =~= self@.subrange(0, i as int));
                lemma_filled_bound(self@.subrange(0, i as int));
            }
            match self.cells[i] {
                Cell::Empty => {},
                Cell::Mark(_) => {
                    n = n + 1;
                },
            }
            i = i + 1;
        }
        assert(self@.subrange(0, 9) =~= self@);
        n
    }

    /// Whether some line of the board is filled entirely with `mark`.
    pub fn has_line_of(&self, mark: Player) -> (r: bool)
        requires
            self.wf(),
        ensures
            r == has_line(self@, mark),
    {
        self.wins(0, 0, mark) || self.wins(1, 1, mark) || self.wins(2, 2, mark)
    }

}

} // verus!
