//! Two classic patterns and what the generation step does to them: the
//! block, which stays as it is, and the blinker, which turns by a quarter
//! with every step.

use vstd::prelude::*;
use crate::engine::{lemma_equal_by_cells, lemma_step_cell, BoardView, Cell};

verus! {

/// `(r, c)` is one of the four positions of the 2×2 block whose upper left
/// corner is `(row, col)`.
pub open spec fn in_block(row: int, col: int, r: int, c: int) -> bool {
    row <= r <= row + 1 && col <= c <= col + 1
}

/// `(r, c)` lies no more than `margin` positions away from the 2×2 block
/// whose upper left corner is `(row, col)`.
pub open spec fn near_block(row: int, col: int, margin: int, r: int, c: int) -> bool {
    row - margin <= r <= row + 1 + margin && col - margin <= c <= col + 1 + margin
}

/// The board holds the 2×2 block whose upper left corner is `(row, col)`,
/// and no other live cell within `margin` positions of it.
pub open spec fn has_block(board: BoardView, row: int, col: int, margin: int) -> bool {
    &&& board.wf()
    &&& board.in_bounds(row, col)
    &&& board.in_bounds(row + 1, col + 1)
    &&& forall|r: int, c: int|
        board.in_bounds(r, c) && near_block(row, col, margin, r, c) ==> (#[trigger] board.cell(
            r,
            c,
        ) == Cell::Alive <==> in_block(row, col, r, c))
}

/// The live cells of the board are exactly the 2×2 block whose upper left
/// corner is `(row, col)`.
pub open spec fn is_block(board: BoardView, row: int, col: int) -> bool {
    forall|margin: int| has_block(board, row, col, margin)
}

/// `(r, c)` lies no more than `margin` positions away from `(row, col)`.
pub open spec fn near(row: int, col: int, margin: int, r: int, c: int) -> bool {
    row - margin <= r <= row + margin && col - margin <= c <= col + margin
}

/// `(r, c)` is one of the three positions of the horizontal run centred
/// at `(row, col)`.
pub open spec fn in_row_run(row: int, col: int, r: int, c: int) -> bool {
    r == row && col - 1 <= c <= col + 1
}

/// `(r, c)` is one of the three positions of the vertical run centred at
/// `(row, col)`.
pub open spec fn in_column_run(row: int, col: int, r: int, c: int) -> bool {
    c == col && row - 1 <= r <= row + 1
}

/// The board has room for a run of three centred at `(row, col)` in both
/// orientations.
pub open spec fn has_room(board: BoardView, row: int, col: int) -> bool {
    board.in_bounds(row - 1, col - 1) && board.in_bounds(row + 1, col + 1)
}

/// The board holds the horizontal run of three centred at `(row, col)`,
/// with room to turn, and no other live cell within `margin` positions of
/// its centre.
pub open spec fn has_flat_blinker(board: BoardView, row: int, col: int, margin: int) -> bool {
    &&& board.wf()
    &&& has_room(board, row, col)
    &&& forall|r: int, c: int|
        board.in_bounds(r, c) && near(row, col, margin, r, c) ==> (#[trigger] board.cell(r, c)
            == Cell::Alive <==> in_row_run(row, col, r, c))
}

/// The board holds the vertical run of three centred at `(row, col)`,
/// with room to turn, and no other live cell within `margin` positions of
/// its centre.
pub open spec fn has_upright_blinker(board: BoardView, row: int, col: int, margin: int) -> bool {
    &&& board.wf()
    &&& has_room(board, row, col)
    &&& forall|r: int, c: int|
        board.in_bounds(r, c) && near(row, col, margin, r, c) ==> (#[trigger] board.cell(r, c)
            == Cell::Alive <==> in_column_run(row, col, r, c))
}

/// The live cells of the board are exactly the horizontal run of three
/// centred at `(row, col)`, and there is room for it to turn.
pub open spec fn is_flat_blinker(board: BoardView, row: int, col: int) -> bool {
    forall|margin: int| has_flat_blinker(board, row, col, margin)
}

/// The live cells of the board are exactly the vertical run of three
/// centred at `(row, col)`, and there is room for it to turn.
pub open spec fn is_upright_blinker(board: BoardView, row: int, col: int) -> bool {
    forall|margin: int| has_upright_blinker(board, row, col, margin)
}

/// A margin that reaches from `(row, col)` to `(r, c)`.
spec fn distance(row: int, col: int, r: int, c: int) -> int {
    let rows = if r < row {
        row - r
    } else {
        r - row
    };
    let cols = if c < col {
        col - c
    } else {
        c - col
    };
    rows + cols
}

/// The step leaves a block as it is, whatever the board holds farther
/// away: where the block has a margin of dead cells around it, the next
/// generation holds the block with a margin one position narrower.
pub proof fn lemma_block_stays(board: BoardView, row: int, col: int, margin: int)
    requires
        has_block(board, row, col, margin),
        margin >= 1,
    ensures
        has_block(board.step(), row, col, margin - 1),
{
    let next = board.step();
    lemma_step_cell(board, row, col);
    assert forall|r: int, c: int|
        next.in_bounds(r, c) && near_block(row, col, margin - 1, r, c) implies (
            #[trigger] next.cell(r, c) == Cell::Alive <==> in_block(row, col, r, c)
        ) by {
        lemma_step_cell(board, r, c);
    }
}

/// The block is a still life: a board whose only live cells are a 2×2
/// block is its own next generation.
pub proof fn lemma_block_is_still(board: BoardView, row: int, col: int)
    requires
        is_block(board, row, col),
    ensures
        board.step() == board,
{
    let next = board.step();
    assert(has_block(board, row, col, 0));
    assert forall|r: int, c: int| next.in_bounds(r, c) implies #[trigger] next.cell(r, c)
        == board.cell(r, c) by {
        let margin = distance(row, col, r, c) + 1;
        assert(has_block(board, row, col, margin));
        lemma_block_stays(board, row, col, margin);
    }
    lemma_equal_by_cells(next, board);
}

/// One step turns a horizontal blinker into the vertical one with the
/// same centre, whatever the board holds farther away: the margin of dead
/// cells is one position narrower afterwards.
pub proof fn lemma_blinker_turns_upright(board: BoardView, row: int, col: int, margin: int)
    requires
        has_flat_blinker(board, row, col, margin),
        margin >= 1,
    ensures
        has_upright_blinker(board.step(), row, col, margin - 1),
{
    let next = board.step();
    lemma_step_cell(board, row, col);
    assert forall|r: int, c: int|
        next.in_bounds(r, c) && near(row, col, margin - 1, r, c) implies (#[trigger] next.cell(r, c)
        == Cell::Alive <==> in_column_run(row, col, r, c)) by {
        lemma_step_cell(board, r, c);
    }
}

/// One step turns a vertical blinker into the horizontal one with the
/// same centre, whatever the board holds farther away: the margin of dead
/// cells is one position narrower afterwards.
pub proof fn lemma_blinker_turns_flat(board: BoardView, row: int, col: int, margin: int)
    requires
        has_upright_blinker(board, row, col, margin),
        margin >= 1,
    ensures
        has_flat_blinker(board.step(), row, col, margin - 1),
{
    let next = board.step();
    lemma_step_cell(board, row, col);
    assert forall|r: int, c: int|
        next.in_bounds(r, c) && near(row, col, margin - 1, r, c) implies (#[trigger] next.cell(r, c)
        == Cell::Alive <==> in_row_run(row, col, r, c)) by {
        lemma_step_cell(board, r, c);
    }
}

/// A blinker with enough margin is back after two steps, whatever the
/// board holds farther away: the margin of dead cells is two positions
/// narrower afterwards.
pub proof fn lemma_blinker_returns(board: BoardView, row: int, col: int, margin: int)
    requires
        has_flat_blinker(board, row, col, margin),
        margin >= 2,
    ensures
        has_upright_blinker(board.step(), row, col, margin - 1),
        has_flat_blinker(board.step().step(), row, col, margin - 2),
{
    lemma_blinker_turns_upright(board, row, col, margin);
    lemma_blinker_turns_flat(board.step(), row, col, margin - 1);
}

/// The blinker has period two: with room to turn, a board whose only live
/// cells are a horizontal run of three becomes the vertical run after one
/// step, which is another board, and is itself again after two.
pub proof fn lemma_blinker_oscillates(board: BoardView, row: int, col: int)
    requires
        is_flat_blinker(board, row, col),
    ensures
        is_upright_blinker(board.step(), row, col),
        board.step() != board,
        board.step().step() == board,
        board.generation(2) == board,
{
    let upright = board.step();
    let back = upright.step();
    assert forall|margin: int| has_upright_blinker(upright, row, col, margin) by {
        if margin >= 0 {
            lemma_blinker_turns_upright(board, row, col, margin + 1);
        } else {
            lemma_blinker_turns_upright(board, row, col, 1);
        }
    }
    lemma_blinker_returns(board, row, col, 2);
    assert forall|r: int, c: int| back.in_bounds(r, c) implies #[trigger] back.cell(r, c)
        == board.cell(r, c) by {
        let margin = distance(row, col, r, c);
        assert(has_flat_blinker(board, row, col, margin + 2));
        lemma_blinker_returns(board, row, col, margin + 2);
    }
    lemma_equal_by_cells(back, board);
    assert(has_flat_blinker(board, row, col, 1));
    assert(board.cell(row - 1, col) != Cell::Alive);
    assert(board.generation(2) == board) by {
        reveal_with_fuel(BoardView::generation, 3);
    }
}

} // verus!
