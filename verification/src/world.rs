use crate::grid::{count_alive, lemma_index_in_bounds, lemma_position_in_bounds, lemma_wrap, Grid};
use crate::rules::conway;
use crate::sampling::{generator_after, outcomes, sample, seeded, seeded_from};
use crate::state::State;
use crate::utils::{index_of, lemma_quotient_and_remainder, to_index, to_position};
use vstd::prelude::*;
use vstd::std_specs::iter::IteratorSpec;

verus! {

/// Why a world could not be built.
#[derive(Debug, Copy, Clone, PartialEq, Eq, Structural)]
pub enum WorldError {
    /// The cells do not fill a whole number of rows of the stated width, or
    /// one of the dimensions would be zero or too large to represent.
    DimensionMismatch,
    /// The probability that a cell is alive is not within 0 and 1.
    InvalidProbability,
}

#[verifier::external_type_specification]
#[verifier::external_body]
#[verifier::reject_recursive_types(T)]
pub struct ExIterMut<'a, T: 'a>(core::slice::IterMut<'a, T>);

/// Makes the iterator of `<[T]>::iter_mut` of std over the items of `items`.
/// The iterator hands out a reference to each item, first to last, each
/// holding the item as it was; what is written through the reference is what
/// the item holds once the iterator is gone. It has no way to add or remove
/// an item, and making it cannot panic.
#[verifier::external_body]
fn each_for_writing<'a, T>(items: &'a mut Vec<T>) -> (each: core::slice::IterMut<'a, T>)
    ensures
        each.obeys_prophetic_iter_laws(),
        each.remaining().len() == old(items)@.len(),
        forall|i: int| 0 <= i < old(items)@.len() ==> *each.remaining()[i] == old(items)@[i],
        final(items)@.len() == old(items)@.len(),
        forall|i: int|
            0 <= i < old(items)@.len() ==> final(items)@[i] == *final(each.remaining()[i]),
    no_unwind
{
    items.iter_mut()
}

/// A rectangular world of cells on a torus, stored row by row.
#[derive(Debug)]
pub struct World {
    width: u32,
    height: u32,
    states: Vec<State>,
}

impl View for World {
    type V = Grid;

    closed spec fn view(&self) -> Grid {
        Grid { width: self.width as nat, height: self.height as nat, cells: self.states@ }
    }
}

impl Clone for World {
    fn clone(&self) -> (copy: Self)
        ensures
            copy@ == self@,
    {
        proof {
            use_type_invariant(self);
        }
        let states = self.states.clone();
        assert(states@ =~= self.states@);
        Self { width: self.width, height: self.height, states }
    }
}

impl IntoIterator for World {
    type Item = State;

    type IntoIter = std::vec::IntoIter<State>;

    /// The cells, row after row, handed over by value.
    fn into_iter(self) -> (cells: std::vec::IntoIter<State>)
        ensures
            cells.remaining() == self@.cells,
            cells.decrease() is Some,
            cells.initial_value_relation(&cells),
    {
        broadcast use vstd::std_specs::vec::axiom_spec_into_iter;

        self.states.into_iter()
    }
}

/// A position of a row of text, the line feed at its end included, has its
/// index inside the text of the grid.
proof fn lemma_text_len(grid: Grid, row: int, column: int)
    requires
        grid.wf(),
        0 <= row < grid.height,
        0 <= column <= grid.width,
    ensures
        0 <= row * (grid.width + 1) + column < grid.text().len(),
{
    let line = grid.width + 1;
    let h = grid.height as int;
    assert(0 <= row * line && row * line + line <= h * line) by (nonlinear_arith)
        requires
            0 <= row < h,
            0 < line,
    ;
}

/// The cell at index `i` of `before` once the first `done` cells of `pattern`
/// have been written over it with the pattern's top-left cell at
/// (`row`, `column`).
spec fn stamped_so_far(before: Grid, row: int, column: int, pattern: Grid, done: int, i: int)
    -> State {
    let r = i / (before.width as int) - row;
    let c = i % (before.width as int) - column;
    if pattern.contains(r, c) && index_of(r, c, pattern.width as int) < done {
        pattern.at(r, c)
    } else {
        before.cells[i]
    }
}

impl World {
    #[verifier::type_invariant]
    spec fn well_formed(self) -> bool {
        self@.wf()
    }

    /// Whether `count` cells fill a world whose rows are `width` cells wide:
    /// at least one whole row, nothing left over, and no more rows than a
    /// `u32` counts.
    pub open spec fn fits(width: u32, count: nat) -> bool {
        &&& width != 0
        &&& count != 0
        &&& count % (width as nat) == 0
        &&& count / (width as nat) <= u32::MAX
    }

    /// Builds a world from its cells in row-major order. The height is the
    /// number of cells divided by `width`.
    pub fn new(width: u32, states: Vec<State>) -> (made: Result<Self, WorldError>)
        ensures
            Self::fits(width, states@.len()) ==> made is Ok && made->Ok_0@ == (Grid {
                width: width as nat,
                height: states@.len() / (width as nat),
                cells: states@,
            }) && made->Ok_0@.wf(),
            !Self::fits(width, states@.len()) ==> made == Err::<Self, WorldError>(
                WorldError::DimensionMismatch,
            ),
    {
        let size = states.len();
        if width == 0 || size == 0 || size % (width as usize) != 0 {
            return Err(WorldError::DimensionMismatch);
        }
        let rows = size / (width as usize);
        if rows > u32::MAX as usize {
            return Err(WorldError::DimensionMismatch);
        }
        let height = rows as u32;
        proof {
            vstd::arithmetic::div_mod::lemma_fundamental_div_mod(size as int, width as int);
            assert(size == width * height);
            assert(height >= 1) by (nonlinear_arith)
                requires
                    size == width * height,
                    size != 0,
            ;
        }
        Ok(Self { width, height, states })
    }

    /// Whether a world of `width` by `height` cells can be built: both
    /// dimensions are at least one, and the cells are no more than a `Vec`
    /// holds.
    pub open spec fn can_hold(width: u32, height: u32) -> bool {
        &&& width >= 1
        &&& height >= 1
        &&& width * height <= isize::MAX
    }

    /// Builds a world of the given dimensions in which every cell is dead.
    pub fn empty(width: u32, height: u32) -> (made: Self)
        requires
            Self::can_hold(width, height),
        ensures
            made@ == Grid::dead(width as nat, height as nat),
            made@.cells.len() == width * height,
            forall|i: int| 0 <= i < made@.cells.len() ==> made@.cells[i] == State::Dead,
            made@.wf(),
    {
        let size: usize = width as usize * height as usize;
        let states = vec![State::default(); size];
        assert(states@ =~= Grid::dead(width as nat, height as nat).cells);
        Self { width, height, states }
    }

    /// Builds a world of the given dimensions from one draw per cell, row
    /// after row: a cell is alive where its draw is true and dead where it is
    /// false. There is exactly one draw for each cell of a world that can be
    /// built.
    pub fn from_draws(width: u32, height: u32, draws: Vec<bool>) -> (made: Result<
        Self,
        WorldError,
    >)
        ensures
            !Self::can_hold(width, height) || draws@.len() != width * height ==> made == Err::<
                Self,
                WorldError,
            >(WorldError::DimensionMismatch),
            Self::can_hold(width, height) && draws@.len() == width * height ==> made is Ok
                && made->Ok_0@ == Grid::of_draws(width as nat, height as nat, draws@)
                && made->Ok_0@.wf(),
    {
        assert(width * height <= 0xffff_ffff * 0xffff_ffff) by (nonlinear_arith)
            requires
                0 <= width <= 0xffff_ffff,
                0 <= height <= 0xffff_ffff,
        ;
        let cells: u64 = width as u64 * height as u64;
        if width == 0 || height == 0 || cells > isize::MAX as u64 || draws.len() as u64 != cells {
            return Err(WorldError::DimensionMismatch);
        }
        let mut states: Vec<State> = Vec::with_capacity(draws.len());
        while states.len() < draws.len()
            invariant
                states.len() <= draws.len(),
                forall|i: int| 0 <= i < states.len() ==> states@[i] == State::of_draw(draws@[i]),
            decreases draws.len() - states.len(),
        {
            let alive = draws[states.len()];
            states.push(State::from(alive));
        }
        assert(states@ =~= Grid::of_draws(width as nat, height as nat, draws@).cells);
        Ok(Self { width, height, states })
    }

    /// The world that `seed` and `trial` give for the given dimensions: one
    /// trial per cell, row after row, all drawing from the generator that the
    /// seed gives.
    pub open spec fn drawn_grid(
        seed: u64,
        trial: rand::distributions::Bernoulli,
        width: u32,
        height: u32,
    ) -> Grid {
        Grid::of_draws(
            width as nat,
            height as nat,
            outcomes(trial, seeded_from(seed), (width * height) as nat),
        )
    }

    /// Builds a world of the given dimensions in which each cell is alive
    /// with the probability of the trial and dead otherwise, each cell by a
    /// trial of its own. `trial` is what `Bernoulli::new` made of the
    /// probability: where that failed, because the probability is not within
    /// 0 and 1, so does this. The trials draw from a generator that is made
    /// from `seed` alone, so one seed and one trial always give one world.
    pub fn random(
        seed: u64,
        trial: Result<rand::distributions::Bernoulli, rand::distributions::BernoulliError>,
        width: u32,
        height: u32,
    ) -> (made: Result<Self, WorldError>)
        ensures
            trial is Err ==> made == Err::<Self, WorldError>(WorldError::InvalidProbability),
            trial is Ok && !Self::can_hold(width, height) ==> made == Err::<Self, WorldError>(
                WorldError::DimensionMismatch,
            ),
            trial is Ok && Self::can_hold(width, height) ==> made is Ok && made->Ok_0@
                == Self::drawn_grid(seed, trial->Ok_0, width, height) && made->Ok_0@.wf(),
    {
        let trial = match trial {
            Ok(trial) => trial,
            Err(_) => {
                return Err(WorldError::InvalidProbability);
            },
        };
        assert(width * height <= 0xffff_ffff * 0xffff_ffff) by (nonlinear_arith)
            requires
                0 <= width <= 0xffff_ffff,
                0 <= height <= 0xffff_ffff,
        ;
        if width == 0 || height == 0 || width as u64 * height as u64 > isize::MAX as u64 {
            return Err(WorldError::DimensionMismatch);
        }
        let size: usize = width as usize * height as usize;
        let mut generator = seeded(seed);
        let mut draws: Vec<bool> = Vec::with_capacity(size);
        while draws.len() < size
            invariant
                draws.len() <= size,
                generator == generator_after(trial, seeded_from(seed), draws.len() as nat),
                draws@ == outcomes(trial, seeded_from(seed), draws.len() as nat),
            decreases size - draws.len(),
        {
            let alive = sample(&trial, &mut generator);
            draws.push(alive);
            assert(draws@ =~= outcomes(trial, seeded_from(seed), draws.len() as nat));
        }
        Self::from_draws(width, height, draws)
    }

    /// Number of columns.
    pub fn width(&self) -> (width: u32)
        ensures
            width == self@.width,
            self@.wf(),
    {
        proof {
            use_type_invariant(self);
        }
        self.width
    }

    /// Number of rows.
    pub fn height(&self) -> (height: u32)
        ensures
            height == self@.height,
            self@.wf(),
    {
        proof {
            use_type_invariant(self);
        }
        self.height
    }

    /// Number of cells: the width times the height.
    pub fn size(&self) -> (size: usize)
        ensures
            size == self@.width * self@.height,
            size == self@.cells.len(),
            self@.wf(),
    {
        proof {
            use_type_invariant(self);
        }
        self.states.len()
    }

    /// The position `delta` steps after `base` on a ring of `len` positions.
    fn wrapped(base: u32, delta: u32, len: u32) -> (at: u32)
        requires
            len >= 1,
        ensures
            at == (base + delta) % (len as int),
            at < len,
    {
        let sum: u64 = base as u64 + delta as u64;
        (sum % (len as u64)) as u32
    }

    /// The cell at a position inside the world.
    fn cell(&self, row: u32, column: u32) -> (state: State)
        requires
            self@.contains(row as int, column as int),
        ensures
            state == self@.at(row as int, column as int),
    {
        proof {
            use_type_invariant(self);
            lemma_index_in_bounds(self@, row as int, column as int);
            assert(self.states.len() == self@.cells.len());
        }
        self.states[to_index(row, column, self.width)]
    }

    /// Counts the live cells among the eight neighbours of a position inside
    /// the world. Rows and columns wrap around at the edges.
    pub fn neighbors_unchecked(&self, row: u32, column: u32) -> (count: u8)
        requires
            self@.contains(row as int, column as int),
        ensures
            count == self@.live_neighbors(row as int, column as int),
            count <= 8,
    {
        proof {
            use_type_invariant(self);
            lemma_wrap(row as int, self.height as int);
            lemma_wrap(column as int, self.width as int);
        }
        let above = Self::wrapped(row, self.height - 1, self.height);
        let below = Self::wrapped(row, 1, self.height);
        let left = Self::wrapped(column, self.width - 1, self.width);
        let right = Self::wrapped(column, 1, self.width);
        let mut count: u8 = 0;
        count = count + self.cell(above, left);
        count = count + self.cell(above, column);
        count = count + self.cell(above, right);
        count = count + self.cell(row, left);
        count = count + self.cell(row, right);
        count = count + self.cell(below, left);
        count = count + self.cell(below, column);
        count = count + self.cell(below, right);
        count
    }

    /// Counts the live cells among the eight neighbours of (`row`, `column`),
    /// or gives `None` when the position is outside the world.
    pub fn neighbors(&self, row: u32, column: u32) -> (count: Option<u8>)
        ensures
            self@.contains(row as int, column as int) ==> count is Some && count->Some_0
                == self@.live_neighbors(row as int, column as int),
            !self@.contains(row as int, column as int) ==> count is None,
    {
        if column < self.width && row < self.height {
            Some(self.neighbors_unchecked(row, column))
        } else {
            None
        }
    }

    /// Replaces the world by its next generation. Every cell is computed from
    /// a copy of the generation before the call, so no cell sees a neighbour
    /// that was already updated.
    pub fn update(&mut self)
        ensures
            final(self)@ == old(self)@.step(),
            final(self)@.wf(),
    {
        proof {
            use_type_invariant(&*self);
        }
        let copy = self.clone();
        let width = self.width;
        let height = self.height;
        let ghost before = self@;
        let mut row: u32 = 0;
        while row < height
            invariant
                row <= height,
                width == self.width,
                height == self.height,
                before.wf(),
                before == copy@,
                before.width == width,
                before.height == height,
                self.states@.len() == before.cells.len(),
                forall|i: int|
                    0 <= i < row * width ==> self.states@[i] == before.step().cells[i],
                forall|i: int|
                    row * width <= i < before.cells.len() ==> self.states@[i] == before.cells[i],
            decreases height - row,
        {
            let mut column: u32 = 0;
            while column < width
                invariant
                    row < height,
                    column <= width,
                    width == self.width,
                    height == self.height,
                    before.wf(),
                    before == copy@,
                    before.width == width,
                    before.height == height,
                    self.states@.len() == before.cells.len(),
                    forall|i: int|
                        0 <= i < row * width + column ==> self.states@[i]
                            == before.step().cells[i],
                    forall|i: int|
                        row * width + column <= i < before.cells.len() ==> self.states@[i]
                            == before.cells[i],
                decreases width - column,
            {
                proof {
                    lemma_index_in_bounds(before, row as int, column as int);
                    lemma_quotient_and_remainder(row as int, column as int, width as int);
                    assert(self.states.len() == before.cells.len());
                }
                let neighbors = copy.neighbors_unchecked(row, column);
                let index = to_index(row, column, width);
                let state = self.states[index];
                self.states[index] = conway(state, neighbors);
                column = column + 1;
            }
            proof {
                assert(row * width + width == (row + 1) * width) by (nonlinear_arith);
            }
            row = row + 1;
        }
        proof {
            assert(height * width == before.cells.len()) by (nonlinear_arith)
                requires
                    before.cells.len() == width * height,
            ;
            assert(self.states@ =~= before.step().cells);
        }
    }

    /// Writes `world` over this world with its top-left cell at
    /// (`row`, `column`). Cells of `world` that would land outside this world
    /// are dropped; nothing wraps around.
    pub fn put(&mut self, row: u32, column: u32, world: World)
        ensures
            final(self)@ == old(self)@.stamp(row as int, column as int, world@),
            final(self)@.wf(),
    {
        proof {
            use_type_invariant(&*self);
            use_type_invariant(&world);
        }
        let width = self.width;
        let height = self.height;
        let ghost before = self@;
        let ghost pattern = world@;
        let size = world.states.len();
        let mut index: usize = 0;
        while index < size
            invariant
                index <= size,
                size == pattern.cells.len(),
                width == self.width,
                height == self.height,
                before.wf(),
                pattern.wf(),
                pattern == world@,
                before.width == width,
                before.height == height,
                self.states@.len() == before.cells.len(),
                forall|i: int|
                    0 <= i < before.cells.len() ==> self.states@[i] == stamped_so_far(
                        before,
                        row as int,
                        column as int,
                        pattern,
                        index as int,
                        i,
                    ),
            decreases size - index,
        {
            proof {
                lemma_position_in_bounds(pattern, index as int);
            }
            let (pattern_row, pattern_column) = to_position(index, world.width as usize);
            let target_row: u64 = row as u64 + pattern_row as u64;
            let target_column: u64 = column as u64 + pattern_column as u64;
            if target_row < height as u64 && target_column < width as u64 {
                proof {
                    lemma_index_in_bounds(before, target_row as int, target_column as int);
                    lemma_quotient_and_remainder(
                        target_row as int,
                        target_column as int,
                        width as int,
                    );
                    assert(self.states.len() == before.cells.len());
                }
                let target = to_index(target_row as u32, target_column as u32, width);
                self.states[target] = world.states[index];
            }
            proof {
                assert forall|i: int| 0 <= i < before.cells.len() implies self.states@[i]
                    == stamped_so_far(before, row as int, column as int, pattern, index + 1, i) by {
                    let r = i / (width as int) - row;
                    let c = i % (width as int) - column;
                    lemma_position_in_bounds(before, i);
                    if pattern.contains(r, c) {
                        lemma_quotient_and_remainder(r, c, pattern.width as int);
                    }
                }
            }
            index = index + 1;
        }
        proof {
            assert forall|i: int| 0 <= i < before.cells.len() implies self.states@[i]
                == before.stamp(row as int, column as int, pattern).cells[i] by {
                let r = i / (width as int) - row;
                let c = i % (width as int) - column;
                if pattern.contains(r, c) {
                    lemma_index_in_bounds(pattern, r, c);
                }
            }
            assert(self.states@ =~= before.stamp(row as int, column as int, pattern).cells);
        }
    }

    /// Flips the cell at (`row`, `column`); does nothing when the position is
    /// outside the world.
    pub fn toggle(&mut self, row: u32, column: u32)
        ensures
            final(self)@ == old(self)@.toggle(row as int, column as int),
            final(self)@.wf(),
    {
        if let Some(state) = self.get_mut(row, column) {
            state.swap();
        }
    }

    /// The world as text: one line per row, each cell shown by its glyph and
    /// each row closed by a line feed.
    pub fn to_string(&self) -> (text: String)
        ensures
            text@ == self@.text(),
    {
        proof {
            use_type_invariant(self);
            reveal_strlit("\n");
        }
        let ghost grid = self@;
        let ghost line = grid.width + 1;
        let mut text = String::new();
        let mut row: u32 = 0;
        while row < self.height
            invariant
                row <= self.height,
                grid == self@,
                grid.wf(),
                line == grid.width + 1,
                "\n"@ == seq!['\n'],
                text@.len() == row * line,
                forall|i: int| 0 <= i < row * line ==> text@[i] == grid.text()[i],
            decreases self.height - row,
        {
            let mut column: u32 = 0;
            while column < self.width
                invariant
                    row < self.height,
                    column <= self.width,
                    grid == self@,
                    grid.wf(),
                    line == grid.width + 1,
                    text@.len() == row * line + column,
                    forall|i: int| 0 <= i < row * line + column ==> text@[i] == grid.text()[i],
                decreases self.width - column,
            {
                proof {
                    lemma_quotient_and_remainder(row as int, column as int, line as int);
                    lemma_text_len(grid, row as int, column as int);
                }
                let state = self.cell(row, column);
                text.append(state.as_str());
                column = column + 1;
            }
            proof {
                lemma_quotient_and_remainder(row as int, column as int, line as int);
                lemma_text_len(grid, row as int, column as int);
                assert(row * line + line == (row + 1) * line) by (nonlinear_arith);
            }
            text.append("\n");
            row = row + 1;
        }
        assert(text@ =~= grid.text());
        text
    }

    /// Counts the live cells.
    pub fn population(&self) -> (count: u64)
        ensures
            count == self@.population(),
            self@.wf(),
    {
        proof {
            use_type_invariant(self);
        }
        let mut count: u64 = 0;
        let mut index: usize = 0;
        while index < self.states.len()
            invariant
                index <= self.states.len(),
                count == count_alive(self.states@.take(index as int)),
                count <= index,
            decreases self.states.len() - index,
        {
            assert(self.states@.take(index + 1).drop_last() =~= self.states@.take(index as int));
            count = count + self.states[index];
            index = index + 1;
        }
        assert(self.states@.take(index as int) =~= self.states@);
        count
    }

    /// The cell buffer: one cell per position, row after row.
    pub fn as_ptr(&self) -> (cells: &[State])
        ensures
            cells@ == self@.cells,
    {
        self.states.as_slice()
    }

    /// An iterator over the cells, row after row.
    pub fn iter(&self) -> (cells: core::slice::Iter<'_, State>)
        ensures
            cells.remaining() == self@.cells.as_ref(),
            cells.decrease() is Some,
            cells.initial_value_relation(&cells),
    {
        broadcast use vstd::std_specs::slice::axiom_spec_slice_iter;

        self.states.as_slice().iter()
    }

    /// An iterator that hands out each cell for writing, row after row: every
    /// cell once, holding what the world holds. What is written through a
    /// reference is what the world holds at that place afterwards, and the
    /// world keeps its dimensions.
    pub fn iter_mut(&mut self) -> (cells: core::slice::IterMut<'_, State>)
        ensures
            cells.obeys_prophetic_iter_laws(),
            cells.remaining().len() == old(self)@.cells.len(),
            forall|i: int|
                0 <= i < old(self)@.cells.len() ==> *cells.remaining()[i] == old(self)@.cells[i],
            final(self)@.width == old(self)@.width,
            final(self)@.height == old(self)@.height,
            final(self)@.cells.len() == old(self)@.cells.len(),
            forall|i: int|
                0 <= i < old(self)@.cells.len() ==> final(self)@.cells[i] == *final(
                    cells.remaining()[i]),
            final(self)@.wf(),
    {
        proof {
            use_type_invariant(&*self);
        }
        each_for_writing(&mut self.states)
    }

    /// The cell at (`row`, `column`), or `None` when the position is outside
    /// the world.
    pub fn get(&self, row: u32, column: u32) -> (cell: Option<&State>)
        ensures
            self@.contains(row as int, column as int) ==> cell == Some(
                &self@.at(row as int, column as int),
            ),
            !self@.contains(row as int, column as int) ==> cell is None,
    {
        proof {
            use_type_invariant(self);
        }
        if row < self.height && column < self.width {
            proof {
                lemma_index_in_bounds(self@, row as int, column as int);
                assert(self.states.len() == self@.cells.len());
            }
            let index = to_index(row, column, self.width);
            Some(&self.states[index])
        } else {
            None
        }
    }

    /// The cell at (`row`, `column`) for writing, or `None` when the position
    /// is outside the world. Whatever is written through the reference is the
    /// only change to the world.
    pub fn get_mut(&mut self, row: u32, column: u32) -> (cell: Option<&mut State>)
        ensures
            old(self)@.contains(row as int, column as int) ==> cell is Some && *cell->Some_0
                == old(self)@.at(row as int, column as int) && final(self)@ == (Grid {
                width: old(self)@.width,
                height: old(self)@.height,
                cells: old(self)@.cells.update(
                    index_of(row as int, column as int, old(self)@.width as int),
                    *final(cell->Some_0),
                ),
            }),
            !old(self)@.contains(row as int, column as int) ==> cell is None && final(self)@
                == old(self)@,
            final(self)@.wf(),
    {
        proof {
            use_type_invariant(&*self);
        }
        if row < self.height && column < self.width {
            proof {
                lemma_index_in_bounds(self@, row as int, column as int);
                assert(self.states.len() == self@.cells.len());
            }
            let index = to_index(row, column, self.width);
            Some(&mut self.states[index])
        } else {
            None
        }
    }
}

} // verus!
