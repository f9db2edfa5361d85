//! Geometry of a square board whose edges are glued together.
//!
//! A cell is named by its row-major index, `row * width + column`. Moving off
//! one edge of the board re-enters it from the opposite edge, so a step never
//! leaves the board.

use vstd::prelude::*;

verus! {

/// One of the four ways the snake can face.
#[derive(PartialEq, Eq, Structural, Clone, Copy, Debug)]
pub enum Direction {
    Up,
    Down,
    Left,
    Right,
}

/// The row in which the cell `index` lies on a board `width` cells wide.
pub open spec fn row_of(width: int, index: int) -> int {
    index / width
}

/// The column in which the cell `index` lies on a board `width` cells wide.
pub open spec fn col_of(width: int, index: int) -> int {
    index % width
}

/// The index of the cell in row `row` and column `col`.
pub open spec fn cell_at(width: int, row: int, col: int) -> int {
    row * width + col
}

/// Whether `index` names a cell of the square board of side `width`.
pub open spec fn on_board(width: int, index: int) -> bool {
    0 <= index < width * width
}

/// By how many rows a step in `direction` moves.
pub open spec fn row_shift(direction: Direction) -> int {
    match direction {
        Direction::Up => -1,
        Direction::Down => 1,
        Direction::Left | Direction::Right => 0,
    }
}

/// By how many columns a step in `direction` moves.
pub open spec fn col_shift(direction: Direction) -> int {
    match direction {
        Direction::Left => -1,
        Direction::Right => 1,
        Direction::Up | Direction::Down => 0,
    }
}

/// The cell one step from `index` in `direction`: row and column each move by
/// the direction's shift, modulo the width of the board.
pub open spec fn step(width: int, index: int, direction: Direction) -> int {
    cell_at(
        width,
        (row_of(width, index) + row_shift(direction)) % width,
        (col_of(width, index) + col_shift(direction)) % width,
    )
}

/// The direction that undoes a step in `direction`.
pub open spec fn opposite(direction: Direction) -> Direction {
    match direction {
        Direction::Up => Direction::Down,
        Direction::Down => Direction::Up,
        Direction::Left => Direction::Right,
        Direction::Right => Direction::Left,
    }
}

/// A cell of the board splits into a row and a column, both below the width,
/// from which it is put together again.
pub proof fn lemma_row_col_of_cell(width: int, index: int)
    requires
        0 < width,
        on_board(width, index),
    ensures
        0 <= row_of(width, index) < width,
        0 <= col_of(width, index) < width,
        cell_at(width, row_of(width, index), col_of(width, index)) == index,
{
    assert(0 <= index / width < width && 0 <= index % width < width && (index / width) * width
        + index % width == index) by (nonlinear_arith)
        requires
            0 < width,
            0 <= index < width * width,
    ;
}

/// A row and a column below the width name a cell of the board, which lies in
/// that row and that column.
pub proof fn lemma_cell_of_row_col(width: int, row: int, col: int)
    requires
        0 <= row < width,
        0 <= col < width,
    ensures
        on_board(width, cell_at(width, row, col)),
        row_of(width, cell_at(width, row, col)) == row,
        col_of(width, cell_at(width, row, col)) == col,
{
    assert(0 <= row * width + col < width * width) by (nonlinear_arith)
        requires
            0 <= row < width,
            0 <= col < width,
    ;
    vstd::arithmetic::div_mod::lemma_fundamental_div_mod_converse(
        row * width + col,
        width,
        row,
        col,
    );
}

/// A coordinate below the width, moved by one or not at all and taken modulo
/// the width, is the neighbour on the ring of `width` places.
pub proof fn lemma_ring_shift(width: int, at: int, by: int)
    requires
        0 <= at < width,
        -1 <= by <= 1,
    ensures
        0 <= (at + by) % width < width,
        (at + by) % width == if at + by < 0 {
            width - 1
        } else if at + by >= width {
            0
        } else {
            at + by
        },
{
    let moved = at + by;
    if moved < 0 {
        vstd::arithmetic::div_mod::lemma_fundamental_div_mod_converse(moved, width, -1, width - 1);
    } else if moved >= width {
        vstd::arithmetic::div_mod::lemma_fundamental_div_mod_converse(moved, width, 1, 0);
    } else {
        vstd::arithmetic::div_mod::lemma_fundamental_div_mod_converse(moved, width, 0, moved);
    }
}

/// A step from a cell of the board lands on a cell of the board, in the row
/// and the column that the direction's shifts give.
pub proof fn lemma_step_on_board(width: int, index: int, direction: Direction)
    requires
        0 < width,
        on_board(width, index),
    ensures
        on_board(width, step(width, index, direction)),
        row_of(width, step(width, index, direction)) == (row_of(width, index) + row_shift(
            direction,
        )) % width,
        col_of(width, step(width, index, direction)) == (col_of(width, index) + col_shift(
            direction,
        )) % width,
{
    lemma_row_col_of_cell(width, index);
    lemma_ring_shift(width, row_of(width, index), row_shift(direction));
    lemma_ring_shift(width, col_of(width, index), col_shift(direction));
    lemma_cell_of_row_col(
        width,
        (row_of(width, index) + row_shift(direction)) % width,
        (col_of(width, index) + col_shift(direction)) % width,
    );
}

/// A step to the left or to the right stays in its row, and a step up or down
/// stays in its column, whichever cell of the board it starts from.
pub proof fn lemma_step_keeps_line(width: int, index: int, direction: Direction)
    requires
        0 < width,
        on_board(width, index),
    ensures
        direction == Direction::Left || direction == Direction::Right ==> row_of(
            width,
            step(width, index, direction),
        ) == row_of(width, index),
        direction == Direction::Up || direction == Direction::Down ==> col_of(
            width,
            step(width, index, direction),
        ) == col_of(width, index),
{
    lemma_row_col_of_cell(width, index);
    lemma_step_on_board(width, index, direction);
    lemma_ring_shift(width, row_of(width, index), 0);
    lemma_ring_shift(width, col_of(width, index), 0);
}

/// A step followed by a step in the opposite direction ends where it began,
/// from every cell of the board, those on an edge included.
pub proof fn lemma_step_back(width: int, index: int, direction: Direction)
    requires
        0 < width,
        on_board(width, index),
    ensures
        step(width, step(width, index, direction), opposite(direction)) == index,
{
    let there = step(width, index, direction);
    let row = row_of(width, index);
    let col = col_of(width, index);
    lemma_row_col_of_cell(width, index);
    lemma_step_on_board(width, index, direction);
    lemma_ring_shift(width, row, row_shift(direction));
    lemma_ring_shift(width, col, col_shift(direction));
    lemma_ring_shift(width, row_of(width, there), row_shift(opposite(direction)));
    lemma_ring_shift(width, col_of(width, there), col_shift(opposite(direction)));
}

/// The step written out edge by edge: on the edge that the direction faces the
/// step wraps to the opposite edge, elsewhere it moves by one cell or one row.
pub proof fn lemma_step_by_cases(width: int, index: int, direction: Direction)
    requires
        0 < width,
        on_board(width, index),
    ensures
        step(width, index, direction) == match direction {
            Direction::Up => if index < width {
                width * width - width + index
            } else {
                index - width
            },
            Direction::Down => if index >= width * width - width {
                index - (width * width - width)
            } else {
                index + width
            },
            Direction::Left => if index == row_of(width, index) * width {
                index + width - 1
            } else {
                index - 1
            },
            Direction::Right => if index + 1 == (row_of(width, index) + 1) * width {
                index + 1 - width
            } else {
                index + 1
            },
        },
{
    let row = row_of(width, index);
    let col = col_of(width, index);
    lemma_row_col_of_cell(width, index);
    lemma_ring_shift(width, row, row_shift(direction));
    lemma_ring_shift(width, col, col_shift(direction));
    assert((row - 1) * width == row * width - width && (row + 1) * width == row * width + width
        && (width - 1) * width == width * width - width && 0 * width == 0) by (nonlinear_arith);
    assert(row < width - 1 ==> row * width + width <= width * width - width) by (nonlinear_arith)
        requires
            0 < width,
            0 <= row,
    ;
    assert(row >= 1 ==> row * width >= width) by (nonlinear_arith)
        requires
            0 < width,
    ;
}

} // verus!
