use crate::rules::next_state;
use crate::state::State;
use crate::utils::{index_of, lemma_index_of_position, lemma_quotient_and_remainder};
use vstd::prelude::*;

verus! {

/// The mathematical model of a world: its dimensions and its cells in
/// row-major order.
pub struct Grid {
    pub width: nat,
    pub height: nat,
    pub cells: Seq<State>,
}

/// Number of live cells in `cells`: each cell adds 0 when dead and 1 when alive.
pub open spec fn count_alive(cells: Seq<State>) -> nat
    decreases cells.len(),
{
    if cells.len() == 0 {
        0
    } else {
        count_alive(cells.drop_last()) + cells.last().count()
    }
}

impl Grid {
    /// Both dimensions are at least one and there is one cell per position.
    pub open spec fn wf(self) -> bool {
        &&& self.width >= 1
        &&& self.height >= 1
        &&& self.cells.len() == self.width * self.height
    }

    /// Whether (`row`, `column`) is a position of the grid.
    pub open spec fn contains(self, row: int, column: int) -> bool {
        0 <= row < self.height && 0 <= column < self.width
    }

    /// The cell at (`row`, `column`).
    pub open spec fn at(self, row: int, column: int) -> State {
        self.cells[index_of(row, column, self.width as int)]
    }

    /// The cell at (`row`, `column`) on the torus: both coordinates wrap
    /// around, so the last row is above the first and the last column is to
    /// the left of the first.
    pub open spec fn at_wrapped(self, row: int, column: int) -> State {
        self.at(row % (self.height as int), column % (self.width as int))
    }

    /// Number of live cells among the eight cells that surround
    /// (`row`, `column`) on the torus. The cell itself is not counted.
    pub open spec fn live_neighbors(self, row: int, column: int) -> nat {
        let above = self.at_wrapped(row - 1, column - 1).count()
            + self.at_wrapped(row - 1, column).count()
            + self.at_wrapped(row - 1, column + 1).count();
        let beside = self.at_wrapped(row, column - 1).count()
            + self.at_wrapped(row, column + 1).count();
        let below = self.at_wrapped(row + 1, column - 1).count()
            + self.at_wrapped(row + 1, column).count()
            + self.at_wrapped(row + 1, column + 1).count();
        above + beside + below
    }

    /// The state of (`row`, `column`) in the next generation.
    pub open spec fn next_at(self, row: int, column: int) -> State {
        next_state(self.at(row, column), self.live_neighbors(row, column))
    }

    /// The next generation: every cell is updated from this generation alone.
    pub open spec fn step(self) -> Grid {
        Grid {
            width: self.width,
            height: self.height,
            cells: Seq::new(
                self.cells.len(),
                |i: int| self.next_at(i / (self.width as int), i % (self.width as int)),
            ),
        }
    }

    /// The grid after `generations` steps.
    pub open spec fn steps(self, generations: nat) -> Grid
        decreases generations,
    {
        if generations == 0 {
            self
        } else {
            self.steps((generations - 1) as nat).step()
        }
    }

    /// The grid with `pattern` written over it, the pattern's top-left cell at
    /// (`row`, `column`). Positions that the pattern does not cover keep their
    /// cell; cells of the pattern that fall outside the grid are dropped.
    pub open spec fn stamp(self, row: int, column: int, pattern: Grid) -> Grid {
        Grid {
            width: self.width,
            height: self.height,
            cells: Seq::new(
                self.cells.len(),
                |i: int|
                    {
                        let r = i / (self.width as int);
                        let c = i % (self.width as int);
                        if pattern.contains(r - row, c - column) {
                            pattern.at(r - row, c - column)
                        } else {
                            self.cells[i]
                        }
                    },
            ),
        }
    }

    /// The grid with the cell at (`row`, `column`) flipped; the same grid when
    /// the position is outside it.
    pub open spec fn toggle(self, row: int, column: int) -> Grid {
        if self.contains(row, column) {
            Grid {
                width: self.width,
                height: self.height,
                cells: self.cells.update(
                    index_of(row, column, self.width as int),
                    self.at(row, column).flipped(),
                ),
            }
        } else {
            self
        }
    }

    /// The grid as text: one line per row, each cell shown by its glyph and
    /// each row closed by a line feed.
    pub open spec fn text(self) -> Seq<char> {
        Seq::new(
            self.height * (self.width + 1),
            |i: int|
                {
                    let row = i / ((self.width + 1) as int);
                    let column = i % ((self.width + 1) as int);
                    if column == self.width {
                        '\n'
                    } else {
                        self.at(row, column).glyph()
                    }
                },
        )
    }

    /// Number of live cells.
    pub open spec fn population(self) -> nat {
        count_alive(self.cells)
    }

    /// The grid of the given dimensions whose cells are read off `draws`, row
    /// after row: alive where the draw is true, dead where it is false.
    pub open spec fn of_draws(width: nat, height: nat, draws: Seq<bool>) -> Grid {
        Grid { width, height, cells: Seq::new(draws.len(), |i: int| State::of_draw(draws[i])) }
    }

    /// The all-dead grid of the given dimensions.
    pub open spec fn dead(width: nat, height: nat) -> Grid {
        Grid { width, height, cells: Seq::new(width * height, |i: int| State::Dead) }
    }
}

/// Stepping one position back or forth on a ring of `len` positions: inside
/// the ring nothing wraps, the position before the first is the last, and the
/// position after the last is the first.
pub proof fn lemma_wrap(base: int, len: int)
    requires
        0 <= base < len,
    ensures
        base % len == base,
        (base - 1) % len == (base + (len - 1)) % len,
        (base - 1) % len == if base == 0 {
            len - 1
        } else {
            base - 1
        },
        (base + 1) % len == if base == len - 1 {
            0
        } else {
            base + 1
        },
{
    vstd::arithmetic::div_mod::lemma_small_mod(base as nat, len as nat);
    vstd::arithmetic::div_mod::lemma_mod_add_multiples_vanish(base - 1, len);
    if base == 0 {
        vstd::arithmetic::div_mod::lemma_small_mod((len - 1) as nat, len as nat);
    } else {
        vstd::arithmetic::div_mod::lemma_small_mod((base - 1) as nat, len as nat);
    }
    if base == len - 1 {
        vstd::arithmetic::div_mod::lemma_mod_self_0(len);
    } else {
        vstd::arithmetic::div_mod::lemma_small_mod((base + 1) as nat, len as nat);
    }
}

/// A position inside a well-formed grid has its index inside the cell buffer.
pub proof fn lemma_index_in_bounds(grid: Grid, row: int, column: int)
    requires
        grid.wf(),
        grid.contains(row, column),
    ensures
        0 <= index_of(row, column, grid.width as int) < grid.cells.len(),
{
    let w = grid.width as int;
    let h = grid.height as int;
    assert(0 <= row * w && row * w + w <= h * w) by (nonlinear_arith)
        requires
            0 <= row < h,
            0 < w,
    ;
    assert(h * w == w * h) by (nonlinear_arith);
}

/// An index inside the cell buffer of a well-formed grid lies at a position
/// inside the grid.
pub proof fn lemma_position_in_bounds(grid: Grid, index: int)
    requires
        grid.wf(),
        0 <= index < grid.cells.len(),
    ensures
        grid.contains(index / (grid.width as int), index % (grid.width as int)),
        index_of(index / (grid.width as int), index % (grid.width as int), grid.width as int)
            == index,
{
    let w = grid.width as int;
    let h = grid.height as int;
    lemma_index_of_position(index, w);
    let q = index / w;
    let r = index % w;
    assert(0 <= q < h) by (nonlinear_arith)
        requires
            q * w + r == index,
            0 <= r < w,
            0 <= index < w * h,
    ;
}

/// Stepping is simultaneous: the next generation has the same dimensions, and
/// each of its cells is the rule applied to that cell and its live neighbours
/// in the generation before, whatever becomes of the other cells.
pub proof fn lemma_step_cell(grid: Grid, row: int, column: int)
    requires
        grid.wf(),
        grid.contains(row, column),
    ensures
        grid.step().wf(),
        grid.step().width == grid.width,
        grid.step().height == grid.height,
        grid.step().at(row, column) == next_state(
            grid.at(row, column),
            grid.live_neighbors(row, column),
        ),
{
    lemma_index_in_bounds(grid, row, column);
    lemma_quotient_and_remainder(row, column, grid.width as int);
}

/// Stamping writes exactly the part of the pattern that lies inside the grid:
/// a position that the pattern covers takes the pattern's cell, every other
/// position keeps its own, and the dimensions stay as they were.
pub proof fn lemma_stamp_cell(grid: Grid, row: int, column: int, pattern: Grid, r: int, c: int)
    requires
        grid.wf(),
        grid.contains(r, c),
    ensures
        grid.stamp(row, column, pattern).wf(),
        grid.stamp(row, column, pattern).width == grid.width,
        grid.stamp(row, column, pattern).height == grid.height,
        grid.stamp(row, column, pattern).at(r, c) == if pattern.contains(r - row, c - column) {
            pattern.at(r - row, c - column)
        } else {
            grid.at(r, c)
        },
{
    lemma_index_in_bounds(grid, r, c);
    lemma_quotient_and_remainder(r, c, grid.width as int);
}

/// A pattern that lies wholly outside the grid changes nothing.
pub proof fn lemma_stamp_outside(grid: Grid, row: int, column: int, pattern: Grid)
    requires
        grid.wf(),
        row >= grid.height || column >= grid.width || row + pattern.height <= 0 || column
            + pattern.width <= 0,
    ensures
        grid.stamp(row, column, pattern) == grid,
{
    let stamped = grid.stamp(row, column, pattern);
    assert forall|i: int| 0 <= i < grid.cells.len() implies stamped.cells[i] == grid.cells[i] by {
        lemma_position_in_bounds(grid, i);
    }
    assert(stamped.cells =~= grid.cells);
}

/// Summing the cells counts the live ones: the population is the number of
/// cells that are alive.
pub proof fn lemma_count_alive_is_number_of_live_cells(cells: Seq<State>)
    ensures
        count_alive(cells) == cells.filter(|state: State| state == State::Alive).len(),
        count_alive(cells) <= cells.len(),
    decreases cells.len(),
{
    reveal(Seq::filter);
    if cells.len() != 0 {
        lemma_count_alive_is_number_of_live_cells(cells.drop_last());
    }
}

/// Flipping one cell changes the population by exactly one.
pub proof fn lemma_toggle_population(grid: Grid, row: int, column: int)
    requires
        grid.wf(),
        grid.contains(row, column),
    ensures
        grid.at(row, column) == State::Dead ==> grid.toggle(row, column).population()
            == grid.population() + 1,
        grid.at(row, column) == State::Alive ==> grid.toggle(row, column).population() + 1
            == grid.population(),
{
    lemma_index_in_bounds(grid, row, column);
    lemma_count_alive_update(
        grid.cells,
        index_of(row, column, grid.width as int),
        grid.at(row, column).flipped(),
    );
}

/// Replacing one cell changes the count of live cells by the difference
/// between what the new cell and the old cell add to it.
pub proof fn lemma_count_alive_update(cells: Seq<State>, index: int, state: State)
    requires
        0 <= index < cells.len(),
    ensures
        count_alive(cells.update(index, state)) + cells[index].count() == count_alive(cells)
            + state.count(),
    decreases cells.len(),
{
    let updated = cells.update(index, state);
    if index == cells.len() - 1 {
        assert(updated.drop_last() =~= cells.drop_last());
    } else {
        assert(updated.drop_last() =~= cells.drop_last().update(index, state));
        lemma_count_alive_update(cells.drop_last(), index, state);
    }
}

} // verus!
