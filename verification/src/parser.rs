//! Reading a board from text: what a parser is, why reading can fail, and
//! the fixed-grid format.

use vstd::prelude::*;
use vstd::string::StringExecFns;
pub use crate::rle::RLEParser;
use crate::engine::{Board, BoardView, Cell};
use crate::text::{
    at_most, decimal, lines, parse_usize, push_decimal, split, split_chars, split_lines, texts,
    to_chars, unsigned_value,
};

verus! {

/// The part of a run-length header that could not be read.
#[derive(Copy, Clone, Debug, PartialEq, Eq, Structural)]
pub enum HeaderField {
    /// The text does not begin with a header line at all.
    Format,
    /// The number of columns.
    Columns,
    /// The number of rows.
    Rows,
    /// The encoded cells that follow the header line.
    Body,
}

/// Why a text could not be read as a board.
#[allow(inconsistent_fields)]
#[derive(Copy, Clone, Debug, PartialEq, Eq, Structural)]
pub enum ParseError {
    /// The text ended before the board's size was given.
    UnexpectedEof,
    /// The line that should give the board's size is no number.
    InvalidDimension,
    /// The header is missing, or the named part of it cannot be read.
    InvalidHeader { field: HeaderField },
    /// The text holds `found` rows, its header announced `expected`.
    RowCountMismatch { found: usize, expected: usize },
    /// The text holds `found` cells, its header announced `expected`.
    SizeMismatch { found: usize, expected: u128 },
    /// The encoded cells hold something that stands for no cell.
    InvalidSymbol,
}

impl ParseError {
    /// The error in words.
    pub open spec fn message_text(self) -> Seq<char> {
        match self {
            ParseError::UnexpectedEof => "Malformed input file."@,
            ParseError::InvalidDimension => "Invalid board size."@,
            ParseError::InvalidHeader { field: HeaderField::Format } => "Invalid file format."@,
            ParseError::InvalidHeader { field: HeaderField::Columns } => {
                "Invalid number of columns."@
            },
            ParseError::InvalidHeader { field: HeaderField::Rows } => "Invalid number of rows."@,
            ParseError::InvalidHeader { field: HeaderField::Body } => {
                "Invalid board representation."@
            },
            ParseError::RowCountMismatch { found, expected } => {
                "Number of rows in header does not match. Found "@ + decimal(found as nat)
                    + ", header stated "@ + decimal(expected as nat)
            },
            ParseError::SizeMismatch { found, expected } => {
                "Board size (x*y) in header does not match. Found "@ + decimal(found as nat)
                    + ", header stated "@ + decimal(expected as nat)
            },
            ParseError::InvalidSymbol => "Invalid cell representation."@,
        }
    }

    /// The error in words.
    pub fn message(&self) -> (text: String)
        ensures
            text@ == self.message_text(),
    {
        let mut text = String::new();
        match self {
            ParseError::UnexpectedEof => {
                text.append("Malformed input file.");
            },
            ParseError::InvalidDimension => {
                text.append("Invalid board size.");
            },
            ParseError::InvalidHeader { field: HeaderField::Format } => {
                text.append("Invalid file format.");
            },
            ParseError::InvalidHeader { field: HeaderField::Columns } => {
                text.append("Invalid number of columns.");
            },
            ParseError::InvalidHeader { field: HeaderField::Rows } => {
                text.append("Invalid number of rows.");
            },
            ParseError::InvalidHeader { field: HeaderField::Body } => {
                text.append("Invalid board representation.");
            },
            ParseError::RowCountMismatch { found, expected } => {
                text.append("Number of rows in header does not match. Found ");
                push_decimal(&mut text, *found as u128);
                text.append(", header stated ");
                push_decimal(&mut text, *expected as u128);
            },
            ParseError::SizeMismatch { found, expected } => {
                text.append("Board size (x*y) in header does not match. Found ");
                push_decimal(&mut text, *found as u128);
                text.append(", header stated ");
                push_decimal(&mut text, *expected);
            },
            ParseError::InvalidSymbol => {
                text.append("Invalid cell representation.");
            },
        }
        text
    }
}

/// What a parser returned, with the board taken by its view.
pub open spec fn outcome(result: Result<Board, ParseError>) -> Result<BoardView, ParseError> {
    match result {
        Ok(board) => Ok(board@),
        Err(error) => Err(error),
    }
}

/// A text format for boards.
pub trait Parser {
    /// What `text` stands for in this format: a board, or the reason why
    /// it is none.
    spec fn read(&self, text: Seq<char>) -> Result<BoardView, ParseError>;

    /// Reads `text` as a board.
    fn parse_board(&self, text: &str) -> (result: Result<Board, ParseError>)
        ensures
            outcome(result) == self.read(text@),
            result matches Ok(board) ==> board@.wf(),
    ;
}

/// The cell that a token of the fixed-grid format stands for: `1` is a
/// live cell, anything else a dead one.
pub open spec fn token_cell(token: Seq<char>) -> Cell {
    if token == seq!['1'] {
        Cell::Alive
    } else {
        Cell::Dead
    }
}

/// The cells of one line of the fixed-grid format: one for each of the
/// tokens that single spaces separate.
pub open spec fn line_cells(line: Seq<char>) -> Seq<Cell> {
    split(line, ' ').map_values(|token: Seq<char>| token_cell(token))
}

/// The cells of a sequence of lines, in reading order.
pub open spec fn grid_cells(rows: Seq<Seq<char>>) -> Seq<Cell> {
    rows.map_values(|line: Seq<char>| line_cells(line)).flatten()
}

/// What a text stands for in the fixed-grid format. Its first line gives
/// the size `n` of a square board; the tokens of all further lines are its
/// cells, and there must be `n * n` of them.
pub open spec fn fixed_grid(text: Seq<char>) -> Result<BoardView, ParseError> {
    let all = lines(text);
    if all.len() == 0 {
        Err(ParseError::UnexpectedEof)
    } else {
        match at_most(unsigned_value(all[0]), usize::MAX as nat) {
            None => Err(ParseError::InvalidDimension),
            Some(n) => {
                let cells = grid_cells(all.skip(1));
                if cells.len() == n * n {
                    Ok(BoardView { width: n, height: n, cells })
                } else {
                    Err(
                        ParseError::SizeMismatch {
                            found: cells.len() as usize,
                            expected: (n * n) as u128,
                        },
                    )
                }
            },
        }
    }
}

/// Appends the cells of one line of the fixed-grid format to `grid`.
fn push_line_cells(line: &Vec<char>, grid: &mut Vec<Cell>)
    ensures
        final(grid)@ == old(grid)@ + line_cells(line@),
{
    let tokens = split_chars(line, ' ');
    let ghost cells = line_cells(line@);
    let mut i: usize = 0;
    while i < tokens.len()
        invariant
            i <= tokens@.len(),
            texts(tokens@) == split(line@, ' '),
            cells == line_cells(line@),
            grid@ == old(grid)@ + cells.take(i as int),
        decreases tokens@.len() - i,
    {
        let token = &tokens[i];
        let cell = if token.len() == 1 && token[0] == '1' {
            assert(token@ =~= seq!['1']);
            Cell::Alive
        } else {
            Cell::Dead
        };
        grid.push(cell);
        i = i + 1;
    }
}

/// The fixed-grid format: a line with the size `n` of the board, then the
/// `n * n` cells as tokens separated by single spaces, `1` for a live cell
/// and anything else, by custom `.`, for a dead one.
#[derive(Debug)]
pub struct MassingillParser {}

impl Parser for MassingillParser {
    open spec fn read(&self, text: Seq<char>) -> Result<BoardView, ParseError> {
        fixed_grid(text)
    }

    fn parse_board(&self, text: &str) -> (result: Result<Board, ParseError>) {
        let chars = to_chars(text);
        let all = split_lines(&chars);
        if all.len() == 0 {
            return Err(ParseError::UnexpectedEof);
        }
        let n: usize = match parse_usize(&all[0]) {
            Some(n) => n,
            None => {
                return Err(ParseError::InvalidDimension);
            },
        };
        let ghost rows = texts(all@);
        let mut grid: Vec<Cell> = Vec::new();
        let mut i: usize = 1;
        while i < all.len()
            invariant
                1 <= i <= all@.len(),
                rows == texts(all@),
                grid@ == grid_cells(rows.subrange(1, i as int)),
            decreases all@.len() - i,
        {
            let ghost done = rows.subrange(1, i as int);
            push_line_cells(&all[i], &mut grid);
            proof {
                let each = |line: Seq<char>| line_cells(line);
                assert(rows.subrange(1, i + 1) =~= done.push(rows[i as int]));
                assert(done.push(rows[i as int]).map_values(each) =~= done.map_values(each).push(
                    line_cells(rows[i as int]),
                ));
                done.map_values(each).lemma_flatten_push(line_cells(rows[i as int]));
            }
            i = i + 1;
        }
        let found: usize = grid.len();
        assert(n * n <= u128::MAX) by (nonlinear_arith)
            requires
                n <= u64::MAX,
        ;
        match Board::from_cells(n, n, grid) {
            Some(board) => Ok(board),
            None => Err(ParseError::SizeMismatch { found, expected: (n as u128) * (n as u128) }),
        }
    }
}

} // verus!
