use vstd::prelude::*;

verus! {

/// Linear index of the cell at (`row`, `column`) in a row-major buffer of
/// rows that are `width` cells wide.
pub open spec fn index_of(row: int, column: int, width: int) -> int {
    row * width + column
}

/// The (row, column) at which linear index `index` lies when rows are `width`
/// cells wide.
pub open spec fn position_of(index: int, width: int) -> (int, int) {
    (index / width, index % width)
}

/// Division with remainder is unique: if `index == row * width + column` with
/// `0 <= column < width`, then `row` is the quotient and `column` the remainder.
pub proof fn lemma_quotient_and_remainder(row: int, column: int, width: int)
    requires
        0 <= column < width,
    ensures
        (row * width + column) / width == row,
        (row * width + column) % width == column,
{
    vstd::arithmetic::div_mod::lemma_fundamental_div_mod_converse(
        row * width + column,
        width,
        row,
        column,
    );
}

/// Mapping a position to its index and back gives the position again.
pub proof fn lemma_position_of_index(row: int, column: int, width: int)
    requires
        0 < width,
        0 <= column < width,
    ensures
        position_of(index_of(row, column, width), width) == (row, column),
{
    lemma_quotient_and_remainder(row, column, width);
}

/// Mapping an index to its position and back gives the index again.
pub proof fn lemma_index_of_position(index: int, width: int)
    requires
        0 < width,
    ensures
        index_of(position_of(index, width).0, position_of(index, width).1, width) == index,
        0 <= position_of(index, width).1 < width,
{
    vstd::arithmetic::div_mod::lemma_fundamental_div_mod(index, width);
    vstd::arithmetic::div_mod::lemma_mod_bound(index, width);
    assert(width * (index / width) == (index / width) * width) by (nonlinear_arith);
}

/// The linear index of (`row`, `column`) in rows of `width` cells.
pub fn to_index(row: u32, column: u32, width: u32) -> (index: usize)
    requires
        index_of(row as int, column as int, width as int) <= usize::MAX,
    ensures
        index == index_of(row as int, column as int, width as int),
{
    assert(0 <= row * width <= 0xffff_ffff * 0xffff_ffff) by (nonlinear_arith)
        requires
            0 <= row <= 0xffff_ffff,
            0 <= width <= 0xffff_ffff,
    ;
    let wide: u64 = row as u64 * width as u64 + column as u64;
    wide as usize
}

/// The (row, column) of linear index `index` in rows of `width` cells. A
/// coordinate that a `u32` cannot hold is cut down to its low 32 bits.
pub fn to_position(index: usize, width: usize) -> (position: (u32, u32))
    requires
        width != 0,
    ensures
        position.0 == position_of(index as int, width as int).0 as u32,
        position.1 == position_of(index as int, width as int).1 as u32,
{
    let row: usize = index / width;
    let column: usize = index % width;
    (#[verifier::truncate] (row as u32), #[verifier::truncate] (column as u32))
}

} // verus!
