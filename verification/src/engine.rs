//! The board: a fixed-size grid of cells stored row by row, with the
//! neighbour count and the generation step.

use vstd::prelude::*;
use crate::cfg::Config;
use crate::parser::{fixed_grid, outcome, MassingillParser, ParseError, Parser};

verus! {

/// The state of one position of the grid.
#[derive(Copy, Clone, Debug, PartialEq, Eq, Structural)]
pub enum Cell {
    Alive,
    Dead,
}

/// The state a cell takes in the next generation, given its current state
/// and the number of its live neighbours: three neighbours give life, two
/// keep it, anything else leaves the position dead.
pub open spec fn rule(cell: Cell, neighbors: int) -> Cell {
    if neighbors == 3 || (cell == Cell::Alive && neighbors == 2) {
        Cell::Alive
    } else {
        Cell::Dead
    }
}

/// The character that stands for a cell in the text of a board.
pub open spec fn symbol(cell: Cell) -> char {
    match cell {
        Cell::Alive => '1',
        Cell::Dead => '.',
    }
}

/// The mathematical model of a board: its dimensions and its cells in
/// row-major order.
pub struct BoardView {
    pub width: nat,
    pub height: nat,
    pub cells: Seq<Cell>,
}

impl BoardView {
    /// The cell sequence holds exactly one cell per position.
    pub open spec fn wf(self) -> bool {
        self.cells.len() == self.width * self.height
    }

    /// Whether `(row, col)` is a position of the board.
    pub open spec fn in_bounds(self, row: int, col: int) -> bool {
        0 <= row < self.height && 0 <= col < self.width
    }

    /// Where the cell at `(row, col)` stands in the cell sequence.
    #[verifier::opaque]
    pub open spec fn index(self, row: int, col: int) -> int {
        row * self.width + col
    }

    /// The cell at `(row, col)`; meaningful only within bounds.
    pub open spec fn cell(self, row: int, col: int) -> Cell {
        self.cells[self.index(row, col)]
    }

    /// Whether `(row, col)` lies on the board and holds a live cell.
    pub open spec fn alive(self, row: int, col: int) -> bool {
        self.in_bounds(row, col) && self.cell(row, col) == Cell::Alive
    }

    /// What `(row, col)` adds to a neighbour count: 1 if it is a live
    /// position of the board, 0 if it is dead or off the board.
    pub open spec fn live(self, row: int, col: int) -> int {
        if self.alive(row, col) {
            1
        } else {
            0
        }
    }

    /// The number of live cells among the eight positions around
    /// `(row, col)`. Positions beyond the edges count as dead: the grid
    /// does not wrap around.
    pub open spec fn neighbor_count(self, row: int, col: int) -> int {
        self.live(row - 1, col - 1) + self.live(row - 1, col) + self.live(row - 1, col + 1)
            + self.live(row, col - 1) + self.live(row, col + 1) + self.live(row + 1, col - 1)
            + self.live(row + 1, col) + self.live(row + 1, col + 1)
    }

    /// The state of `(row, col)` in the next generation.
    pub open spec fn next_cell(self, row: int, col: int) -> Cell {
        rule(self.cell(row, col), self.neighbor_count(row, col))
    }

    /// The next generation: every cell is replaced by what the rule gives
    /// for it on this board.
    pub open spec fn step(self) -> BoardView {
        BoardView {
            width: self.width,
            height: self.height,
            cells: Seq::new(
                self.cells.len(),
                |k: int| self.next_cell(k / (self.width as int), k % (self.width as int)),
            ),
        }
    }

    /// The text of the first `n` cells of row `row`: their symbols with a
    /// single space between one and the next.
    pub open spec fn row_text(self, row: int, n: nat) -> Seq<char>
        decreases n,
    {
        if n == 0 {
            Seq::empty()
        } else if n == 1 {
            seq![symbol(self.cell(row, 0))]
        } else {
            self.row_text(row, (n - 1) as nat) + seq![' ', symbol(self.cell(row, n - 1))]
        }
    }

    /// The text of the first `n` rows: the text of each, ended by a line
    /// feed.
    pub open spec fn rows_text(self, n: nat) -> Seq<char>
        decreases n,
    {
        if n == 0 {
            Seq::empty()
        } else {
            self.rows_text((n - 1) as nat) + self.row_text(n - 1, self.width) + seq!['\n']
        }
    }

    /// The text of the board: one line for each row.
    pub open spec fn render(self) -> Seq<char> {
        self.rows_text(self.height)
    }

    /// The board after `n` generations.
    pub open spec fn generation(self, n: nat) -> BoardView
        decreases n,
    {
        if n == 0 {
            self
        } else {
            self.generation((n - 1) as nat).step()
        }
    }
}

/// A position's row-major index lies within the cell sequence and
/// determines the position.
pub proof fn lemma_index_of_position(width: nat, height: nat, row: int, col: int)
    requires
        0 <= row < height,
        0 <= col < width,
    ensures
        0 <= row * width + col < width * height,
        (row * width + col) / (width as int) == row,
        (row * width + col) % (width as int) == col,
{
    let w = width as int;
    assert(row * w + col < w * height) by (nonlinear_arith)
        requires
            0 <= row < height,
            0 <= col < w,
    ;
    vstd::arithmetic::div_mod::lemma_fundamental_div_mod_converse(row * w + col, w, row, col);
}

/// An index into the cell sequence is the row-major index of the position
/// it divides into.
pub proof fn lemma_position_of_index(width: nat, height: nat, k: int)
    requires
        0 <= k < width * height,
    ensures
        0 <= k / (width as int) < height,
        0 <= k % (width as int) < width,
        (k / (width as int)) * width + k % (width as int) == k,
{
    let w = width as int;
    vstd::arithmetic::div_mod::lemma_fundamental_div_mod(k, w);
    vstd::arithmetic::div_mod::lemma_mod_bound(k, w);
    let q = k / w;
    assert(0 <= q < height) by (nonlinear_arith)
        requires
            0 <= k < w * height,
            k == q * w + k % w,
            0 <= k % w < w,
    ;
}

/// A neighbour count lies between 0 and 8, on every board and at every
/// position, on the board or off it.
pub proof fn lemma_neighbor_count_range(board: BoardView, row: int, col: int)
    ensures
        0 <= board.neighbor_count(row, col) <= 8,
{
}

/// The step keeps the dimensions, and each cell of the next generation is
/// what the rule gives for that position on the board before the step.
pub proof fn lemma_step_cell(board: BoardView, row: int, col: int)
    requires
        board.wf(),
        board.in_bounds(row, col),
    ensures
        board.step().wf(),
        board.step().in_bounds(row, col),
        board.step().cell(row, col) == board.next_cell(row, col),
{
    reveal(BoardView::index);
    lemma_index_of_position(board.width, board.height, row, col);
}

/// Two boards of the same dimensions that agree at every position are the
/// same board.
pub proof fn lemma_equal_by_cells(a: BoardView, b: BoardView)
    requires
        a.wf(),
        b.wf(),
        a.width == b.width,
        a.height == b.height,
        forall|row: int, col: int|
            a.in_bounds(row, col) ==> #[trigger] a.cell(row, col) == b.cell(row, col),
    ensures
        a == b,
{
    reveal(BoardView::index);
    assert forall|k: int| 0 <= k < a.cells.len() implies a.cells[k] == b.cells[k] by {
        lemma_position_of_index(a.width, a.height, k);
        let row = k / (a.width as int);
        let col = k % (a.width as int);
        assert(a.cell(row, col) == b.cell(row, col));
    }
    assert(a.cells =~= b.cells);
}

/// A board of the Game of Life: `width * height` cells in row-major order.
#[derive(Debug)]
pub struct Board {
    grid: Vec<Cell>,
    width: usize,
    height: usize,
}

impl View for Board {
    type V = BoardView;

    closed spec fn view(&self) -> BoardView {
        BoardView { width: self.width as nat, height: self.height as nat, cells: self.grid@ }
    }
}

impl Clone for Board {
    /// A board of its own with the same dimensions and cells.
    fn clone(&self) -> (copy: Board)
        ensures
            copy@ == self@,
    {
        proof {
            use_type_invariant(self);
        }
        let mut grid: Vec<Cell> = Vec::new();
        let mut i: usize = 0;
        while i < self.grid.len()
            invariant
                i <= self.grid@.len(),
                grid@ == self.grid@.take(i as int),
            decreases self.grid@.len() - i,
        {
            grid.push(self.grid[i]);
            i = i + 1;
        }
        assert(self.grid@.take(i as int) =~= self.grid@);
        Board { grid, width: self.width, height: self.height }
    }
}

impl Board {
    #[verifier::type_invariant]
    spec fn inv(&self) -> bool {
        self.grid@.len() == self.width * self.height
    }

    /// A board of the given dimensions over the given cells, taken row by
    /// row. There is a board exactly when there is one cell per position.
    pub fn from_cells(width: usize, height: usize, cells: Vec<Cell>) -> (board: Option<Board>)
        ensures
            board is Some <==> cells@.len() == width * height,
            board matches Some(b) ==> b@ == (BoardView {
                width: width as nat,
                height: height as nat,
                cells: cells@,
            }) && b@.wf(),
    {
        assert(width * height <= u128::MAX) by (nonlinear_arith)
            requires
                width <= u64::MAX,
                height <= u64::MAX,
        ;
        if (width as u128) * (height as u128) == cells.len() as u128 {
            Some(Board { grid: cells, width, height })
        } else {
            None
        }
    }

    /// Reads `text` as a board in the format of `parser`.
    pub fn parse(text: &str, parser: &dyn Parser) -> (result: Result<Board, ParseError>)
        ensures
            outcome(result) == parser.read(text@),
            result matches Ok(board) ==> board@.wf(),
    {
        parser.parse_board(text)
    }

    /// Reads `text` as a board in the fixed-grid format. There is a board
    /// exactly when the text stands for one.
    pub fn new(text: String) -> (board: Option<Board>)
        ensures
            match fixed_grid(text@) {
                Ok(view) => board matches Some(b) && b@ == view && b@.wf(),
                Err(_) => board is None,
            },
    {
        match (MassingillParser {}).parse_board(text.as_str()) {
            Ok(board) => Some(board),
            Err(_) => None,
        }
    }

    /// The number of columns.
    pub fn width(&self) -> (w: usize)
        ensures
            w == self@.width,
            self@.wf(),
    {
        proof {
            use_type_invariant(self);
        }
        self.width
    }

    /// The number of rows.
    pub fn height(&self) -> (h: usize)
        ensures
            h == self@.height,
            self@.wf(),
    {
        proof {
            use_type_invariant(self);
        }
        self.height
    }

    /// The cell at `(row, col)`.
    pub fn get(&self, row: usize, col: usize) -> (cell: Cell)
        requires
            self@.in_bounds(row as int, col as int),
        ensures
            cell == self@.cell(row as int, col as int),
    {
        proof {
            use_type_invariant(self);
            reveal(BoardView::index);
            lemma_index_of_position(self.width as nat, self.height as nat, row as int, col as int);
            assert(self.grid@.len() == self.grid.len());
        }
        self.grid[row * self.width + col]
    }

    /// Replaces the cell at `(row, col)`; every other cell stays.
    pub fn set(&mut self, row: usize, col: usize, cell: Cell)
        requires
            old(self)@.in_bounds(row as int, col as int),
        ensures
            final(self)@ == (BoardView {
                cells: old(self)@.cells.update(old(self)@.index(row as int, col as int), cell),
                ..old(self)@
            }),
            final(self)@.wf(),
            final(self)@.cell(row as int, col as int) == cell,
            forall|r: int, c: int|
                old(self)@.in_bounds(r, c) && (r != row || c != col)
                    ==> #[trigger] final(self)@.cell(r, c) == old(self)@.cell(r, c),
    {
        proof {
            use_type_invariant(&*self);
            reveal(BoardView::index);
            lemma_index_of_position(self.width as nat, self.height as nat, row as int, col as int);
            assert(self.grid@.len() == self.grid.len());
        }
        let ghost before = self@;
        self.grid[row * self.width + col] = cell;
        proof {
            assert forall|r: int, c: int|
                before.in_bounds(r, c) && (r != row || c != col) implies #[trigger] self@.cell(r, c)
                == before.cell(r, c) by {
                lemma_index_of_position(before.width, before.height, r, c);
            }
        }
    }

    /// What the position `(row, col)` adds to a neighbour count, where a
    /// coordinate that left the range of `usize` is given as `None`.
    fn live(&self, row: Option<usize>, col: Option<usize>) -> (n: i32)
        ensures
            n == match (row, col) {
                (Some(r), Some(c)) => self@.live(r as int, c as int),
                _ => 0,
            },
    {
        match (row, col) {
            (Some(r), Some(c)) => {
                if r < self.height && c < self.width && self.get(r, c) == Cell::Alive {
                    1
                } else {
                    0
                }
            },
            _ => 0,
        }
    }

    /// The number of live cells among the eight positions around
    /// `(r, c)`, positions off the board counting as dead.
    pub fn neighbors(&self, r: usize, c: usize) -> (n: i32)
        ensures
            n == self@.neighbor_count(r as int, c as int),
            0 <= n <= 8,
    {
        let up = r.checked_sub(1);
        let down = r.checked_add(1);
        let left = c.checked_sub(1);
        let right = c.checked_add(1);
        proof {
            use_type_invariant(self);
        }
        let above: i32 = self.live(up, left) + self.live(up, Some(c)) + self.live(up, right);
        let beside: i32 = self.live(Some(r), left) + self.live(Some(r), right);
        let below: i32 = self.live(down, left) + self.live(down, Some(c))
            + self.live(down, right);
        above + beside + below
    }

    /// The text of the board: one line for each row, with `1` for a live
    /// cell and `.` for a dead one, a single space between the cells of a
    /// row and a line feed after each row.
    pub fn render(&self) -> (text: String)
        ensures
            text@ == self@.render(),
    {
        let mut text = String::new();
        let mut r: usize = 0;
        while r < self.height
            invariant
                r <= self.height,
                text@ == self@.rows_text(r as nat),
            decreases self.height - r,
        {
            let ghost before = text@;
            let mut c: usize = 0;
            while c < self.width
                invariant
                    r < self.height,
                    c <= self.width,
                    text@ == before + self@.row_text(r as int, c as nat),
                decreases self.width - c,
            {
                if c > 0 {
                    text.push(' ');
                }
                let mark = match self.get(r, c) {
                    Cell::Alive => '1',
                    Cell::Dead => '.',
                };
                text.push(mark);
                c = c + 1;
            }
            text.push('\n');
            r = r + 1;
        }
        text
    }

    /// The next generation, as a new board of the same dimensions. Every
    /// cell is computed from this board alone.
    pub fn step(&self) -> (next: Board)
        ensures
            next@ == self@.step(),
            next@.wf(),
    {
        proof {
            use_type_invariant(self);
        }
        let mut grid: Vec<Cell> = Vec::new();
        let mut r: usize = 0;
        while r < self.height
            invariant
                r <= self.height,
                self.grid@.len() == self.width * self.height,
                grid@.len() == r * self.width,
                forall|k: int|
                    0 <= k < grid@.len() ==> #[trigger] grid@[k] == self@.next_cell(
                        k / (self.width as int),
                        k % (self.width as int),
                    ),
            decreases self.height - r,
        {
            let mut c: usize = 0;
            while c < self.width
                invariant
                    r < self.height,
                    c <= self.width,
                    self.grid@.len() == self.width * self.height,
                    grid@.len() == r * self.width + c,
                    forall|k: int|
                        0 <= k < grid@.len() ==> #[trigger] grid@[k] == self@.next_cell(
                            k / (self.width as int),
                            k % (self.width as int),
                        ),
                decreases self.width - c,
            {
                let count: i32 = self.neighbors(r, c);
                let cell = if count == 3 || (count == 2 && self.get(r, c) == Cell::Alive) {
                    Cell::Alive
                } else {
                    Cell::Dead
                };
                proof {
                    lemma_index_of_position(
                        self.width as nat,
                        self.height as nat,
                        r as int,
                        c as int,
                    );
                }
                grid.push(cell);
                c = c + 1;
            }
            assert(r * self.width + self.width == (r + 1) * self.width) by (nonlinear_arith);
            r = r + 1;
        }
        assert(grid@.len() == self.grid@.len()) by (nonlinear_arith)
            requires
                grid@.len() == r * self.width,
                r == self.height,
                self.grid@.len() == self.width * self.height,
        ;
        assert(grid@ =~= self@.step().cells);
        Board { grid, width: self.width, height: self.height }
    }
}

/// The number of boards that a run of `steps` steps shows: the first
/// board and the one after each step, or none where `steps` is negative.
pub open spec fn frame_count(steps: int) -> nat {
    if steps < 0 {
        0
    } else {
        (steps + 1) as nat
    }
}

/// The texts of the first `count` generations of `board`, the board
/// itself first.
pub open spec fn frames(board: BoardView, count: nat) -> Seq<Seq<char>> {
    Seq::new(count, |i: int| board.generation(i as nat).render())
}

/// What a run with the given settings shows: the texts of the first board
/// and of the board after each step, or why the first board cannot be
/// read.
pub open spec fn shown(config: Config) -> Result<Seq<Seq<char>>, ParseError> {
    match config.parser.read(config.starting_board@) {
        Ok(board) => Ok(frames(board, frame_count(config.steps as int))),
        Err(error) => Err(error),
    }
}

/// Runs the Game of Life with the given settings: reads the first board,
/// then takes the steps one by one, and returns the text of the board
/// before the first step and after each step.
pub fn run(config: Config) -> (result: Result<Vec<String>, ParseError>)
    ensures
        shown(config) == match result {
            Ok(texts) => Ok::<Seq<Seq<char>>, ParseError>(texts.deep_view()),
            Err(error) => Err(error),
        },
{
    let first = match config.parser.parse_board(config.starting_board.as_str()) {
        Ok(board) => board,
        Err(error) => {
            return Err(error);
        },
    };
    let mut texts: Vec<String> = Vec::new();
    if config.steps < 0 {
        assert(texts.deep_view() =~= frames(first@, 0));
        return Ok(texts);
    }
    let count: usize = config.steps as usize + 1;
    let ghost all = frames(first@, count as nat);
    let mut current = first;
    let mut i: usize = 0;
    while i < count
        invariant
            i <= count,
            all == frames(first@, count as nat),
            current@ == first@.generation(i as nat),
            texts.deep_view() == all.take(i as int),
        decreases count - i,
    {
        texts.push(current.render());
        assert(all.take(i + 1) =~= all.take(i as int).push(all[i as int]));
        current = current.step();
        i = i + 1;
    }
    assert(all.take(count as int) =~= all);
    Ok(texts)
}

} // verus!
