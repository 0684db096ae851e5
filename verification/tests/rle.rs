use game_of_life::engine::Cell;
use game_of_life::parser::{HeaderField, ParseError};
use game_of_life::rle::{
    assemble, decode, push_row, push_runs, read_header, read_runs, split_rows, Header,
    HEADER_PATTERN, RUN_PATTERN,
};
use regex::Regex;

fn text(s: &str) -> Option<String> {
    Some(s.to_string())
}

fn chars(s: &str) -> Vec<char> {
    s.chars().collect()
}

fn run_match(count: &str, tag: &str) -> Vec<Option<String>> {
    vec![text("whole"), text(count), text(tag)]
}

fn header_error(found: Option<Vec<Option<String>>>) -> ParseError {
    match read_header(&found) {
        Ok(_) => panic!("a header was read"),
        Err(error) => error,
    }
}

#[test]
fn patterns_are_expressions_with_the_groups_that_are_read() {
    assert_eq!(Regex::new(HEADER_PATTERN).unwrap().captures_len(), 4);
    assert_eq!(Regex::new(RUN_PATTERN).unwrap().captures_len(), 3);
}

#[test]
fn header_pattern_finds_columns_rows_and_what_follows() {
    let header = Regex::new(HEADER_PATTERN).unwrap();
    let found = header.captures("#C note\nx = 3, y = 2, rule = B3/S23\nbo$\n3o!\nend").unwrap();
    let groups: Vec<Option<String>> =
        found.iter().map(|group| group.map(|m| m.as_str().to_string())).collect();
    let head = read_header(&Some(groups)).unwrap();
    assert_eq!(head.cols, 3);
    assert_eq!(head.rows, 2);
    assert_eq!(head.body, chars("bo$\n3o!\nend"));
    assert!(header.captures("x = 3\n").is_none());
}

#[test]
fn run_pattern_finds_the_runs_of_a_row() {
    let run = Regex::new(RUN_PATTERN).unwrap();
    let found: Vec<Vec<Option<String>>> = run
        .captures_iter("2o b\n10bo")
        .map(|each| each.iter().map(|group| group.map(|m| m.as_str().to_string())).collect())
        .collect();
    assert_eq!(
        read_runs(&found),
        Some(vec![(2, Cell::Alive), (1, Cell::Dead), (10, Cell::Dead), (1, Cell::Alive)])
    );
}

#[test]
fn read_header_takes_the_three_groups() {
    let found = Some(vec![text("x = 3, y = 2\no!"), text("3"), text("2"), text("o!")]);
    let head = read_header(&found).unwrap();
    assert_eq!(head.cols, 3);
    assert_eq!(head.rows, 2);
    assert_eq!(head.body, chars("o!"));
}

#[test]
fn read_header_names_the_first_part_that_cannot_be_read() {
    assert_eq!(header_error(None), ParseError::InvalidHeader { field: HeaderField::Format });
    assert_eq!(
        header_error(Some(vec![])),
        ParseError::InvalidHeader { field: HeaderField::Columns }
    );
    assert_eq!(
        header_error(Some(vec![text("all"), None, text("2"), text("o!")])),
        ParseError::InvalidHeader { field: HeaderField::Columns }
    );
    assert_eq!(
        header_error(Some(vec![text("all"), text("x"), text("y"), None])),
        ParseError::InvalidHeader { field: HeaderField::Columns }
    );
    assert_eq!(
        header_error(Some(vec![text("all"), text("3"), text(""), text("o!")])),
        ParseError::InvalidHeader { field: HeaderField::Rows }
    );
    assert_eq!(
        header_error(Some(vec![text("all"), text("3")])),
        ParseError::InvalidHeader { field: HeaderField::Rows }
    );
    assert_eq!(
        header_error(Some(vec![text("all"), text("3"), text("2"), None])),
        ParseError::InvalidHeader { field: HeaderField::Body }
    );
    assert_eq!(
        header_error(Some(vec![text("all"), text("3"), text("2")])),
        ParseError::InvalidHeader { field: HeaderField::Body }
    );
}

#[test]
fn split_rows_ends_a_row_at_each_dollar_and_at_the_exclamation_mark() {
    assert_eq!(split_rows(&chars("o$2b!")), Ok(vec![chars("o"), chars("2b")]));
    assert_eq!(split_rows(&chars("o$2b$!")), Ok(vec![chars("o"), chars("2b"), chars("")]));
    assert_eq!(split_rows(&chars("!")), Ok(vec![chars("")]));
    assert_eq!(split_rows(&chars("$$!")), Ok(vec![chars(""), chars(""), chars("")]));
    assert_eq!(split_rows(&chars("o!b$zz!")), Ok(vec![chars("o")]));
}

#[test]
fn split_rows_leaves_out_what_nothing_ends() {
    assert_eq!(split_rows(&chars("o$2b")), Ok(vec![chars("o")]));
    assert_eq!(split_rows(&chars("o$2b$")), Ok(vec![chars("o"), chars("2b")]));
    assert_eq!(split_rows(&chars("")), Ok(vec![]));
    assert_eq!(split_rows(&chars("3o")), Ok(vec![]));
}

#[test]
fn split_rows_keeps_white_space_in_the_rows() {
    assert_eq!(split_rows(&chars(" o\n$\tb !")), Ok(vec![chars(" o\n"), chars("\tb ")]));
    assert_eq!(split_rows(&chars("o\u{2003}b!")), Ok(vec![chars("o\u{2003}b")]));
}

#[test]
fn split_rows_refuses_what_is_no_symbol() {
    assert_eq!(split_rows(&chars("o$x!")), Err(ParseError::InvalidSymbol));
    assert_eq!(split_rows(&chars("o$b$x")), Err(ParseError::InvalidSymbol));
    assert_eq!(split_rows(&chars("B!")), Err(ParseError::InvalidSymbol));
    assert_eq!(split_rows(&chars("-1o!")), Err(ParseError::InvalidSymbol));
}

#[test]
fn read_runs_gives_each_run_its_length_and_cell() {
    let found = vec![run_match("2", "o"), run_match("", "b"), run_match("10", "b")];
    assert_eq!(
        read_runs(&found),
        Some(vec![(2, Cell::Alive), (1, Cell::Dead), (10, Cell::Dead)])
    );
    assert_eq!(read_runs(&vec![]), Some(vec![]));
    assert_eq!(read_runs(&vec![run_match("0", "o")]), Some(vec![(0, Cell::Alive)]));
    assert_eq!(read_runs(&vec![run_match("+7", "o")]), Some(vec![(7, Cell::Alive)]));
}

#[test]
fn read_runs_gives_nothing_where_a_match_is_no_run() {
    assert_eq!(read_runs(&vec![run_match("2", "o"), run_match("2", "x")]), None);
    assert_eq!(read_runs(&vec![run_match("2", "")]), None);
    assert_eq!(read_runs(&vec![run_match("2", "oo")]), None);
    assert_eq!(read_runs(&vec![run_match("two", "o")]), None);
    assert_eq!(read_runs(&vec![run_match("-2", "o")]), None);
    assert_eq!(
        read_runs(&vec![run_match("340282366920938463463374607431768211456", "o")]),
        None
    );
    assert_eq!(read_runs(&vec![vec![text("o"), text("")]]), None);
    assert_eq!(read_runs(&vec![vec![text("o"), None, text("o")]]), None);
    assert_eq!(read_runs(&vec![vec![text("o"), text("1"), None]]), None);
    assert_eq!(read_runs(&vec![vec![]]), None);
}

#[test]
fn push_runs_writes_the_cells_out() {
    let mut grid = vec![Cell::Dead];
    push_runs(&vec![(2, Cell::Alive), (0, Cell::Dead), (1, Cell::Dead), (1, Cell::Alive)], &mut grid);
    assert_eq!(grid, vec![Cell::Dead, Cell::Alive, Cell::Alive, Cell::Dead, Cell::Alive]);
    push_runs(&vec![], &mut grid);
    assert_eq!(grid.len(), 5);
}

#[test]
fn push_row_fills_a_short_row_with_dead_cells() {
    let mut grid = vec![Cell::Alive];
    let found = Some(vec![run_match("", "b"), run_match("2", "o")]);
    assert_eq!(push_row(&found, 5, &mut grid), Ok(()));
    assert_eq!(
        grid,
        vec![Cell::Alive, Cell::Dead, Cell::Alive, Cell::Alive, Cell::Dead, Cell::Dead]
    );
}

#[test]
fn push_row_keeps_a_row_that_is_long_enough() {
    let mut grid = Vec::new();
    let found = Some(vec![run_match("3", "o")]);
    assert_eq!(push_row(&found, 3, &mut grid), Ok(()));
    assert_eq!(grid, vec![Cell::Alive; 3]);
    assert_eq!(push_row(&found, 2, &mut grid), Ok(()));
    assert_eq!(grid, vec![Cell::Alive; 6]);
    assert_eq!(push_row(&Some(vec![]), 0, &mut grid), Ok(()));
    assert_eq!(grid.len(), 6);
    assert_eq!(push_row(&Some(vec![]), 2, &mut grid), Ok(()));
    assert_eq!(grid.len(), 8);
    assert_eq!(grid[7], Cell::Dead);
}

#[test]
fn push_row_leaves_the_cells_where_the_row_cannot_be_read() {
    let mut grid = vec![Cell::Alive];
    let found = Some(vec![run_match("2", "o"), run_match("2", "x")]);
    assert_eq!(push_row(&found, 5, &mut grid), Err(ParseError::InvalidSymbol));
    assert_eq!(grid, vec![Cell::Alive]);
    assert_eq!(push_row(&None, 5, &mut grid), Err(ParseError::InvalidSymbol));
    assert_eq!(grid, vec![Cell::Alive]);
}

#[test]
fn assemble_wants_as_many_cells_as_the_header_announces() {
    let head = Header { cols: 2, rows: 2, body: Vec::new() };
    let board = assemble(&head, vec![Cell::Alive, Cell::Dead, Cell::Dead, Cell::Alive]).unwrap();
    assert_eq!(board.width(), 2);
    assert_eq!(board.height(), 2);
    assert_eq!(board.render(), "1 .\n. 1\n");
    assert_eq!(
        assemble(&head, vec![Cell::Alive; 5]).err(),
        Some(ParseError::SizeMismatch { found: 5, expected: 4 })
    );
    let wide = Header { cols: usize::MAX, rows: usize::MAX, body: Vec::new() };
    assert_eq!(
        assemble(&wide, Vec::new()).err(),
        Some(ParseError::SizeMismatch {
            found: 0,
            expected: (usize::MAX as u128) * (usize::MAX as u128)
        })
    );
}

#[test]
fn assemble_sets_columns_as_width_and_rows_as_height() {
    let head = Header { cols: 3, rows: 1, body: Vec::new() };
    let board = assemble(&head, vec![Cell::Alive, Cell::Dead, Cell::Dead]).unwrap();
    assert_eq!(board.width(), 3);
    assert_eq!(board.height(), 1);
}

#[test]
fn decode_reads_the_rows_of_the_header() {
    let head = Header { cols: 3, rows: 2, body: chars("bo$3o!") };
    assert_eq!(decode(&head).unwrap().render(), ". 1 .\n1 1 1\n");
    let short = Header { cols: 3, rows: 3, body: chars("bo$3o!") };
    assert_eq!(decode(&short).err(), Some(ParseError::RowCountMismatch { found: 2, expected: 3 }));
    let wrong = Header { cols: 3, rows: 2, body: chars("bo$3x!") };
    assert_eq!(decode(&wrong).err(), Some(ParseError::InvalidSymbol));
    let long = Header { cols: 2, rows: 2, body: chars("bo$3o!") };
    assert_eq!(decode(&long).err(), Some(ParseError::SizeMismatch { found: 5, expected: 4 }));
}
