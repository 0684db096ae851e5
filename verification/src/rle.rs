//! The run-length format: comment lines, a header line that gives the
//! number of columns and of rows, and the cells as runs of `b` (dead) and
//! `o` (alive), the rows ended by `$` and the board by `!`.

use vstd::prelude::*;
use crate::engine::{Board, BoardView, Cell};
use crate::parser::{outcome, HeaderField, ParseError, Parser};
use crate::search::{captures, captures_iter, regex_captures, regex_captures_iter};
use crate::text::{
    at_most, digit, digit_of, find, lemma_split_nonempty, parse_usize, position, slice, split,
    split_chars, texts, to_chars, to_text, unsigned_value, white_space,
};

verus! {

/// The expression for the beginning of a text in the run-length format:
/// any number of lines that begin with `#`, then the header line
/// `x = <columns>, y = <rows>`, which may go on after the rows. Its groups
/// are the columns, the rows, and everything after the header line.
pub const HEADER_PATTERN: &'static str = r"^(?:#.*\n)*x *= *(\d+), *y *= *(\d+).*\n((?s:.*))";

/// The expression for one run: its groups are the count, which may be
/// empty, and the tag.
pub const RUN_PATTERN: &'static str = r"(\d*)(b|o)";

/// The text of group `i`, where the groups hold one.
pub open spec fn group(groups: Seq<Option<Seq<char>>>, i: int) -> Option<Seq<char>> {
    if 0 <= i < groups.len() {
        groups[i]
    } else {
        None
    }
}

/// The number that a group of the header writes, where there is such a
/// group and it writes a number that fits in `usize`.
pub open spec fn dimension(text: Option<Seq<char>>) -> Option<nat> {
    match text {
        Some(digits) => at_most(unsigned_value(digits), usize::MAX as nat),
        None => None,
    }
}

/// What the header of a text announces: the number of columns and of rows,
/// and the encoded cells that follow it.
pub struct HeaderView {
    pub cols: nat,
    pub rows: nat,
    pub body: Seq<char>,
}

/// What the groups of a search for the header stand for. The search must
/// have found the header; then the columns are read, then the rows, then
/// the encoded cells, and the first that cannot be read is named.
pub open spec fn header(found: Option<Seq<Option<Seq<char>>>>) -> Result<HeaderView, ParseError> {
    match found {
        None => Err(ParseError::InvalidHeader { field: HeaderField::Format }),
        Some(groups) => match dimension(group(groups, 1)) {
            None => Err(ParseError::InvalidHeader { field: HeaderField::Columns }),
            Some(cols) => match dimension(group(groups, 2)) {
                None => Err(ParseError::InvalidHeader { field: HeaderField::Rows }),
                Some(rows) => match group(groups, 3) {
                    None => Err(ParseError::InvalidHeader { field: HeaderField::Body }),
                    Some(body) => Ok(HeaderView { cols, rows, body }),
                },
            },
        },
    }
}

/// Whether `c` may stand among the encoded cells: a digit, a tag, the end
/// of a row, or white space.
pub open spec fn is_symbol(c: char) -> bool {
    c == 'b' || c == 'o' || c == '$' || digit(c) is Some || white_space(c)
}

/// The encoded cells proper: what stands before the first `!`, or all of
/// `body` where it holds none.
pub open spec fn encoded(body: Seq<char>) -> Seq<char> {
    body.take(position(body, '!'))
}

/// Whether every character of the encoded cells may stand there.
pub open spec fn symbols_valid(body: Seq<char>) -> bool {
    forall|i: int| 0 <= i < encoded(body).len() ==> is_symbol(#[trigger] encoded(body)[i])
}

/// The rows of the encoded cells. A row is what stands before a `$` or
/// before the `!`; what follows the last `$` of a body without `!` is no
/// row.
pub open spec fn segments(body: Seq<char>) -> Seq<Seq<char>> {
    let pieces = split(encoded(body), '$');
    if position(body, '!') < body.len() {
        pieces
    } else {
        pieces.drop_last()
    }
}

/// The length of a run whose count is written as `count`: 1 for an empty
/// count, else the number written, which must fit in `usize`.
pub open spec fn run_length(count: Seq<char>) -> Option<nat> {
    if count.len() == 0 {
        Some(1nat)
    } else {
        at_most(unsigned_value(count), usize::MAX as nat)
    }
}

/// The cell that a tag stands for.
pub open spec fn tag_cell(tag: Seq<char>) -> Option<Cell> {
    if tag == seq!['o'] {
        Some(Cell::Alive)
    } else if tag == seq!['b'] {
        Some(Cell::Dead)
    } else {
        None
    }
}

/// The run that the groups of one match stand for: its length and its
/// cell. There is none where a group is missing, the count is no number
/// or the tag is unknown.
pub open spec fn run(groups: Seq<Option<Seq<char>>>) -> Option<(nat, Cell)> {
    match (group(groups, 1), group(groups, 2)) {
        (Some(count), Some(tag)) => match (run_length(count), tag_cell(tag)) {
            (Some(length), Some(cell)) => Some((length, cell)),
            _ => None,
        },
        _ => None,
    }
}

/// The runs that the matches of a row stand for, in order; none where one
/// of them stands for no run.
pub open spec fn runs(matches: Seq<Seq<Option<Seq<char>>>>) -> Option<Seq<(nat, Cell)>>
    decreases matches.len(),
{
    if matches.len() == 0 {
        Some(Seq::empty())
    } else {
        match (runs(matches.drop_last()), run(matches.last())) {
            (Some(before), Some(last)) => Some(before.push(last)),
            _ => None,
        }
    }
}

/// The cells that a sequence of runs expands to: for each run, as many
/// copies of its cell as its length says.
pub open spec fn expand(all: Seq<(nat, Cell)>) -> Seq<Cell>
    decreases all.len(),
{
    if all.len() == 0 {
        Seq::empty()
    } else {
        expand(all.drop_last()) + Seq::new(all.last().0, |i: int| all.last().1)
    }
}

/// A row filled up with dead cells to `cols` cells. A row that is as long
/// or longer stays as it is.
pub open spec fn padded(cells: Seq<Cell>, cols: nat) -> Seq<Cell> {
    if cells.len() < cols {
        cells + Seq::new((cols - cells.len()) as nat, |i: int| Cell::Dead)
    } else {
        cells
    }
}

/// The cells of one row, given what the search for runs found in it: the
/// cells of its runs, filled up to `cols`. A search that could not be
/// made, or a match that stands for no run, is an invalid symbol.
pub open spec fn row_cells(
    found: Option<Seq<Seq<Option<Seq<char>>>>>,
    cols: nat,
) -> Result<Seq<Cell>, ParseError> {
    match found {
        None => Err(ParseError::InvalidSymbol),
        Some(matches) => match runs(matches) {
            None => Err(ParseError::InvalidSymbol),
            Some(all) => Ok(padded(expand(all), cols)),
        },
    }
}

/// The cells of all `rows`, one row after the other, or the error of the
/// first row that has one.
pub open spec fn rows_cells(rows: Seq<Seq<char>>, cols: nat) -> Result<Seq<Cell>, ParseError>
    decreases rows.len(),
{
    if rows.len() == 0 {
        Ok(Seq::empty())
    } else {
        match rows_cells(rows.drop_last(), cols) {
            Err(error) => Err(error),
            Ok(before) => match row_cells(regex_captures_iter(RUN_PATTERN@, rows.last()), cols) {
                Err(error) => Err(error),
                Ok(row) => Ok(before + row),
            },
        }
    }
}

/// The board that a header and the cells of its rows make, or why they
/// make none: there must be as many rows as announced, and as many cells
/// as the announced rows and columns hold.
pub open spec fn assembled(
    head: HeaderView,
    rows: nat,
    cells: Result<Seq<Cell>, ParseError>,
) -> Result<BoardView, ParseError> {
    if rows != head.rows {
        Err(ParseError::RowCountMismatch { found: rows as usize, expected: head.rows as usize })
    } else {
        match cells {
            Err(error) => Err(error),
            Ok(cells) => if cells.len() == head.rows * head.cols {
                Ok(BoardView { width: head.cols, height: head.rows, cells })
            } else {
                Err(
                    ParseError::SizeMismatch {
                        found: cells.len() as usize,
                        expected: (head.rows * head.cols) as u128,
                    },
                )
            },
        }
    }
}

/// What follows from a header: its encoded cells must hold valid symbols
/// only, then its rows are counted and their cells put together.
pub open spec fn decoded(head: HeaderView) -> Result<BoardView, ParseError> {
    if !symbols_valid(head.body) {
        Err(ParseError::InvalidSymbol)
    } else {
        let rows = segments(head.body);
        assembled(head, rows.len(), rows_cells(rows, head.cols))
    }
}

/// What a text stands for in the run-length format.
pub open spec fn run_length_encoded(text: Seq<char>) -> Result<BoardView, ParseError> {
    match header(regex_captures(HEADER_PATTERN@, text)) {
        Err(error) => Err(error),
        Ok(head) => decoded(head),
    }
}

/// What the header of a text announces.
pub struct Header {
    pub cols: usize,
    pub rows: usize,
    pub body: Vec<char>,
}

impl View for Header {
    type V = HeaderView;

    open spec fn view(&self) -> HeaderView {
        HeaderView { cols: self.cols as nat, rows: self.rows as nat, body: self.body@ }
    }
}

/// What reading a header gave, with the header taken by its view.
pub open spec fn header_outcome(result: Result<Header, ParseError>) -> Result<
    HeaderView,
    ParseError,
> {
    match result {
        Ok(head) => Ok(head@),
        Err(error) => Err(error),
    }
}

/// The text of group `i`, where the groups hold one.
fn group_of(groups: &Vec<Option<String>>, i: usize) -> (text: Option<Vec<char>>)
    ensures
        text.deep_view() == group(groups.deep_view(), i as int),
        text matches Some(chars) ==> group(groups.deep_view(), i as int) == Some(chars@),
{
    if i < groups.len() {
        match &groups[i] {
            Some(text) => {
                let chars = to_chars(text.as_str());
                Some(chars)
            },
            None => None,
        }
    } else {
        None
    }
}

/// The number that a group of the header writes.
fn dimension_of(groups: &Vec<Option<String>>, i: usize) -> (number: Option<usize>)
    ensures
        number is Some <==> dimension(group(groups.deep_view(), i as int)) is Some,
        number matches Some(n) ==> dimension(group(groups.deep_view(), i as int)) == Some(
            n as nat,
        ),
{
    match group_of(groups, i) {
        Some(chars) => parse_usize(&chars),
        None => None,
    }
}

/// Reads the header from what the search for it found.
pub fn read_header(found: &Option<Vec<Option<String>>>) -> (result: Result<Header, ParseError>)
    ensures
        header_outcome(result) == header(found.deep_view()),
{
    let groups = match found {
        Some(groups) => groups,
        None => {
            return Err(ParseError::InvalidHeader { field: HeaderField::Format });
        },
    };
    let cols: usize = match dimension_of(groups, 1) {
        Some(cols) => cols,
        None => {
            return Err(ParseError::InvalidHeader { field: HeaderField::Columns });
        },
    };
    let rows: usize = match dimension_of(groups, 2) {
        Some(rows) => rows,
        None => {
            return Err(ParseError::InvalidHeader { field: HeaderField::Rows });
        },
    };
    match group_of(groups, 3) {
        Some(body) => Ok(Header { cols, rows, body }),
        None => Err(ParseError::InvalidHeader { field: HeaderField::Body }),
    }
}

/// Whether `c` may stand among the encoded cells.
fn is_symbol_char(c: char) -> (valid: bool)
    ensures
        valid == is_symbol(c),
{
    c == 'b' || c == 'o' || c == '$' || digit_of(c).is_some() || c.is_whitespace()
}

/// Splits the encoded cells into their rows, provided that they hold
/// valid symbols only.
pub fn split_rows(body: &Vec<char>) -> (result: Result<Vec<Vec<char>>, ParseError>)
    ensures
        match result {
            Ok(rows) => symbols_valid(body@) && texts(rows@) == segments(body@),
            Err(error) => !symbols_valid(body@) && error == ParseError::InvalidSymbol,
        },
{
    assert(body@.skip(0) =~= body@);
    let end: usize = find(body, 0, '!');
    let cells = slice(body, 0, end);
    let mut i: usize = 0;
    while i < cells.len()
        invariant
            i <= cells@.len(),
            cells@ == encoded(body@),
            forall|k: int| 0 <= k < i ==> is_symbol(#[trigger] cells@[k]),
        decreases cells@.len() - i,
    {
        if !is_symbol_char(cells[i]) {
            return Err(ParseError::InvalidSymbol);
        }
        i = i + 1;
    }
    let mut rows = split_chars(&cells, '$');
    if end == body.len() {
        proof {
            lemma_split_nonempty(cells@, '$');
        }
        rows.pop();
    }
    Ok(rows)
}

/// The runs of a vector, with their lengths as natural numbers.
pub open spec fn run_views(all: Seq<(usize, Cell)>) -> Seq<(nat, Cell)> {
    Seq::new(all.len(), |i: int| (all[i].0 as nat, all[i].1))
}

/// The run that the groups of one match stand for.
fn read_run(groups: &Vec<Option<String>>) -> (found: Option<(usize, Cell)>)
    ensures
        found is Some <==> run(groups.deep_view()) is Some,
        found matches Some(r) ==> run(groups.deep_view()) == Some((r.0 as nat, r.1)),
{
    let count = match group_of(groups, 1) {
        Some(count) => count,
        None => {
            return None;
        },
    };
    let tag = match group_of(groups, 2) {
        Some(tag) => tag,
        None => {
            return None;
        },
    };
    let length: usize = if count.len() == 0 {
        1
    } else {
        match parse_usize(&count) {
            Some(length) => length,
            None => {
                return None;
            },
        }
    };
    if tag.len() == 1 && tag[0] == 'o' {
        assert(tag@ =~= seq!['o']);
        Some((length, Cell::Alive))
    } else if tag.len() == 1 && tag[0] == 'b' {
        assert(tag@ =~= seq!['b']);
        Some((length, Cell::Dead))
    } else {
        None
    }
}

/// Reads the runs of a row from the matches that the search for runs
/// found in it.
pub fn read_runs(matches: &Vec<Vec<Option<String>>>) -> (found: Option<Vec<(usize, Cell)>>)
    ensures
        found is Some <==> runs(matches.deep_view()) is Some,
        found matches Some(all) ==> runs(matches.deep_view()) == Some(run_views(all@)),
{
    let ghost views = matches.deep_view();
    let mut all: Vec<(usize, Cell)> = Vec::new();
    let mut i: usize = 0;
    while i < matches.len()
        invariant
            i <= matches@.len(),
            views == matches.deep_view(),
            runs(views.take(i as int)) == Some(run_views(all@)),
        decreases matches@.len() - i,
    {
        proof {
            assert(views.take(i + 1).drop_last() =~= views.take(i as int));
            if runs(views) is Some {
                lemma_runs_prefix(views, i + 1);
            }
        }
        match read_run(&matches[i]) {
            Some(next) => {
                all.push(next);
            },
            None => {
                return None;
            },
        }
        i = i + 1;
    }
    assert(views.take(i as int) =~= views);
    Some(all)
}

/// Where the matches of a row stand for runs, so do its first `k`.
pub proof fn lemma_runs_prefix(matches: Seq<Seq<Option<Seq<char>>>>, k: int)
    requires
        0 <= k <= matches.len(),
        runs(matches) is Some,
    ensures
        runs(matches.take(k)) is Some,
    decreases matches.len(),
{
    if k == matches.len() {
        assert(matches.take(k) =~= matches);
    } else {
        lemma_runs_prefix(matches.drop_last(), k);
        assert(matches.drop_last().take(k) =~= matches.take(k));
    }
}

/// Appends to `grid` the cells that `all` expands to.
pub fn push_runs(all: &Vec<(usize, Cell)>, grid: &mut Vec<Cell>)
    ensures
        final(grid)@ == old(grid)@ + expand(run_views(all@)),
{
    let ghost views = run_views(all@);
    let mut i: usize = 0;
    while i < all.len()
        invariant
            i <= all@.len(),
            views == run_views(all@),
            grid@ == old(grid)@ + expand(views.take(i as int)),
        decreases all@.len() - i,
    {
        let (length, cell) = all[i];
        let ghost start = grid@;
        let mut j: usize = 0;
        while j < length
            invariant
                j <= length,
                grid@ == start + Seq::new(j as nat, |k: int| cell),
            decreases length - j,
        {
            grid.push(cell);
            j = j + 1;
        }
        proof {
            assert(views.take(i + 1).drop_last() =~= views.take(i as int));
        }
        i = i + 1;
    }
    assert(views.take(i as int) =~= views);
}

/// Appends one row to `grid`, given what the search for runs found in
/// it: the cells of its runs, and dead cells up to `cols` where the runs
/// give fewer. Where the row cannot be read, `grid` stays as it is.
pub fn push_row(
    found: &Option<Vec<Vec<Option<String>>>>,
    cols: usize,
    grid: &mut Vec<Cell>,
) -> (result: Result<(), ParseError>)
    ensures
        match row_cells(found.deep_view(), cols as nat) {
            Ok(row) => result is Ok && final(grid)@ == old(grid)@ + row,
            Err(error) => result == Err::<(), ParseError>(error) && final(grid)@ == old(grid)@,
        },
{
    let matches = match found {
        Some(matches) => matches,
        None => {
            return Err(ParseError::InvalidSymbol);
        },
    };
    let all = match read_runs(matches) {
        Some(all) => all,
        None => {
            return Err(ParseError::InvalidSymbol);
        },
    };
    let before: usize = grid.len();
    push_runs(&all, grid);
    let ghost cells = expand(run_views(all@));
    let mut length: usize = grid.len() - before;
    while length < cols
        invariant
            length <= cols || length == cells.len(),
            cells.len() <= length,
            grid@.len() == old(grid)@.len() + length,
            grid@ == old(grid)@ + cells + Seq::new(
                (length - cells.len()) as nat,
                |k: int| Cell::Dead,
            ),
        decreases cols - length,
    {
        grid.push(Cell::Dead);
        length = length + 1;
    }
    Ok(())
}

/// Puts the board together from its header and the cells read from its
/// rows, of which there were as many as the header announced.
pub fn assemble(head: &Header, grid: Vec<Cell>) -> (result: Result<Board, ParseError>)
    ensures
        outcome(result) == assembled(head@, head@.rows, Ok(grid@)),
        result matches Ok(board) ==> board@.wf(),
{
    let found: usize = grid.len();
    assert(head.rows * head.cols <= u128::MAX) by (nonlinear_arith)
        requires
            head.rows <= u64::MAX,
            head.cols <= u64::MAX,
    ;
    match Board::from_cells(head.cols, head.rows, grid) {
        Some(board) => Ok(board),
        None => Err(
            ParseError::SizeMismatch {
                found,
                expected: (head.rows as u128) * (head.cols as u128),
            },
        ),
    }
}

/// Reads the cells of all rows, one row after the other.
fn read_rows(rows: &Vec<Vec<char>>, cols: usize) -> (result: Result<Vec<Cell>, ParseError>)
    ensures
        rows_cells(texts(rows@), cols as nat) == match result {
            Ok(grid) => Ok::<Seq<Cell>, ParseError>(grid@),
            Err(error) => Err(error),
        },
{
    let ghost all = texts(rows@);
    let mut grid: Vec<Cell> = Vec::new();
    let mut i: usize = 0;
    while i < rows.len()
        invariant
            i <= rows@.len(),
            all == texts(rows@),
            rows_cells(all.take(i as int), cols as nat) == Ok::<Seq<Cell>, ParseError>(grid@),
        decreases rows@.len() - i,
    {
        proof {
            assert(all.take(i + 1).drop_last() =~= all.take(i as int));
        }
        let row = to_text(&rows[i]);
        let found = captures_iter(RUN_PATTERN, row.as_str());
        match push_row(&found, cols, &mut grid) {
            Ok(()) => {},
            Err(error) => {
                proof {
                    lemma_rows_prefix(all, cols as nat, i + 1);
                }
                return Err(error);
            },
        }
        i = i + 1;
    }
    assert(all.take(i as int) =~= all);
    Ok(grid)
}

/// The error of the first row that has one is the error of all rows.
pub proof fn lemma_rows_prefix(rows: Seq<Seq<char>>, cols: nat, k: int)
    requires
        0 <= k <= rows.len(),
        rows_cells(rows.take(k), cols) is Err,
    ensures
        rows_cells(rows, cols) == rows_cells(rows.take(k), cols),
    decreases rows.len(),
{
    if k == rows.len() {
        assert(rows.take(k) =~= rows);
    } else {
        assert(rows.drop_last().take(k) =~= rows.take(k));
        lemma_rows_prefix(rows.drop_last(), cols, k);
    }
}

/// Reads the board that a header announces from the encoded cells that
/// follow it.
pub fn decode(head: &Header) -> (result: Result<Board, ParseError>)
    ensures
        outcome(result) == decoded(head@),
        result matches Ok(board) ==> board@.wf(),
{
    let rows = match split_rows(&head.body) {
        Ok(rows) => rows,
        Err(error) => {
            return Err(error);
        },
    };
    if rows.len() != head.rows {
        return Err(ParseError::RowCountMismatch { found: rows.len(), expected: head.rows });
    }
    match read_rows(&rows, head.cols) {
        Ok(grid) => assemble(head, grid),
        Err(error) => Err(error),
    }
}

/// The run-length format.
#[derive(Debug)]
pub struct RLEParser {}

impl Parser for RLEParser {
    open spec fn read(&self, text: Seq<char>) -> Result<BoardView, ParseError> {
        run_length_encoded(text)
    }

    fn parse_board(&self, text: &str) -> (result: Result<Board, ParseError>) {
        let found = captures(HEADER_PATTERN, text);
        match read_header(&found) {
            Ok(head) => decode(&head),
            Err(error) => Err(error),
        }
    }
}

} // verus!
