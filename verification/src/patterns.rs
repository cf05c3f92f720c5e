use crate::grid::{
    lemma_index_in_bounds, lemma_position_in_bounds, lemma_stamp_cell, lemma_wrap, Grid,
};
use crate::state::State;
use crate::world::World;
use vstd::prelude::*;

verus! {

/// A live cell, short enough to write patterns with.
pub const A: State = State::Alive;

/// A dead cell, short enough to write patterns with.
pub const D: State = State::Dead;

/// The cells of the glider, three to a row.
pub const GLIDER: [State; 9] = [D, D, A, A, D, A, D, A, A];

/// The cells of the block, two to a row.
pub const BLOCK: [State; 4] = [A, A, A, A];

/// The glider as a grid: three rows of three cells.
pub open spec fn glider_grid() -> Grid {
    Grid { width: 3, height: 3, cells: GLIDER@ }
}

/// The block as a grid: two rows of two live cells.
pub open spec fn block_grid() -> Grid {
    Grid { width: 2, height: 2, cells: BLOCK@ }
}

/// An all-dead grid of the given dimensions with one block stamped on it, the
/// block's top-left cell at (`row`, `column`).
pub open spec fn lone_block(width: nat, height: nat, row: int, column: int) -> Grid {
    Grid::dead(width, height).stamp(row, column, block_grid())
}

/// In a grid that holds one block and nothing else, the live cells are the
/// four cells of the block.
pub proof fn lemma_lone_block_cell(width: nat, height: nat, row: int, column: int, r: int, c: int)
    requires
        width >= 1,
        height >= 1,
        0 <= r < height,
        0 <= c < width,
    ensures
        lone_block(width, height, row, column).at(r, c) == if row <= r < row + 2 && column <= c
            < column + 2 {
            State::Alive
        } else {
            State::Dead
        },
{
    let dead = Grid::dead(width, height);
    lemma_index_in_bounds(dead, r, c);
    lemma_stamp_cell(dead, row, column, block_grid(), r, c);
}

/// A block that lies wholly inside a world of at least three rows and three
/// columns is a still life: one step leaves the grid as it was.
pub proof fn lemma_block_is_still(width: nat, height: nat, row: int, column: int)
    requires
        width >= 3,
        height >= 3,
        0 <= row,
        row + 2 <= height,
        0 <= column,
        column + 2 <= width,
    ensures
        lone_block(width, height, row, column).step() == lone_block(width, height, row, column),
{
    let grid = lone_block(width, height, row, column);
    let w = width as int;
    let h = height as int;
    assert forall|i: int| 0 <= i < grid.cells.len() implies grid.step().cells[i]
        == grid.cells[i] by {
        lemma_position_in_bounds(grid, i);
        let r = i / w;
        let c = i % w;
        lemma_wrap(r, h);
        lemma_wrap(c, w);
        let above = (r - 1) % h;
        let below = (r + 1) % h;
        let left = (c - 1) % w;
        let right = (c + 1) % w;
        lemma_lone_block_cell(width, height, row, column, r, c);
        lemma_lone_block_cell(width, height, row, column, above, left);
        lemma_lone_block_cell(width, height, row, column, above, c);
        lemma_lone_block_cell(width, height, row, column, above, right);
        lemma_lone_block_cell(width, height, row, column, r, left);
        lemma_lone_block_cell(width, height, row, column, r, right);
        lemma_lone_block_cell(width, height, row, column, below, left);
        lemma_lone_block_cell(width, height, row, column, below, c);
        lemma_lone_block_cell(width, height, row, column, below, right);
        assert(grid.next_at(r, c) == grid.at(r, c));
    }
    assert(grid.step().cells =~= grid.cells);
}

/// A block that lies wholly inside a world of at least three rows and three
/// columns never changes, however many steps are taken.
pub proof fn lemma_block_is_stable(
    width: nat,
    height: nat,
    row: int,
    column: int,
    generations: nat,
)
    requires
        width >= 3,
        height >= 3,
        0 <= row,
        row + 2 <= height,
        0 <= column,
        column + 2 <= width,
    ensures
        lone_block(width, height, row, column).steps(generations) == lone_block(
            width,
            height,
            row,
            column,
        ),
    decreases generations,
{
    if generations > 0 {
        lemma_block_is_stable(width, height, row, column, (generations - 1) as nat);
        lemma_block_is_still(width, height, row, column);
    }
}

/// A fresh world that holds the cells of `cells` in rows of `width`.
fn pattern(width: u32, cells: &[State]) -> (made: World)
    requires
        World::fits(width, cells@.len()),
    ensures
        made@ == (Grid {
            width: width as nat,
            height: cells@.len() / (width as nat),
            cells: cells@,
        }),
        made@.wf(),
{
    let mut states: Vec<State> = Vec::new();
    states.extend_from_slice(cells);
    assert(states@ == cells@);
    match World::new(width, states) {
        Ok(world) => world,
        Err(_) => vstd::pervasive::unreached(),
    }
}

/// A glider: the smallest pattern that travels across the world.
pub fn glider() -> (made: World)
    ensures
        made@ == glider_grid(),
        made@.wf(),
{
    pattern(3, &GLIDER)
}

/// A block: two by two live cells, which no step changes.
pub fn block() -> (made: World)
    ensures
        made@ == block_grid(),
        made@.wf(),
{
    pattern(2, &BLOCK)
}

} // verus!
