use crate::state::State;
use vstd::prelude::*;

verus! {

/// Conway's transition rule as a function of a cell's state and the number of
/// its live neighbours.
///
/// * A live cell with fewer than two live neighbours dies (underpopulation).
/// * A live cell with two or three live neighbours lives on.
/// * A live cell with more than three live neighbours dies (overpopulation).
/// * A dead cell with exactly three live neighbours becomes alive
///   (reproduction).
///
/// Every other cell keeps its state.
pub open spec fn next_state(state: State, neighbors: nat) -> State {
    if state == State::Alive && neighbors < 2 {
        State::Dead
    } else if state == State::Alive && (neighbors == 2 || neighbors == 3) {
        State::Alive
    } else if state == State::Alive && neighbors > 3 {
        State::Dead
    } else if state == State::Dead && neighbors == 3 {
        State::Alive
    } else {
        state
    }
}

/// The rule written out as a table over every possible neighbour count: the
/// next state is alive exactly for a live cell with two or three live
/// neighbours and for a dead cell with three.
pub proof fn lemma_rule_table(state: State, neighbors: nat)
    requires
        neighbors <= 8,
    ensures
        state == State::Alive && neighbors <= 1 ==> next_state(state, neighbors) == State::Dead,
        state == State::Alive && 2 <= neighbors <= 3 ==> next_state(state, neighbors)
            == State::Alive,
        state == State::Alive && 4 <= neighbors <= 8 ==> next_state(state, neighbors)
            == State::Dead,
        state == State::Dead && neighbors == 3 ==> next_state(state, neighbors) == State::Alive,
        state == State::Dead && neighbors != 3 ==> next_state(state, neighbors) == State::Dead,
        next_state(state, neighbors) == State::Alive <==> neighbors == 3 || (state == State::Alive
            && neighbors == 2),
{
}

/// Applies Conway's rule to one cell.
pub fn conway(state: State, neighbors: u8) -> (next: State)
    requires
        neighbors <= 8,
    ensures
        next == next_state(state, neighbors as nat),
{
    match state {
        State::Alive => {
            if neighbors < 2 {
                State::Dead
            } else if neighbors == 2 || neighbors == 3 {
                State::Alive
            } else {
                State::Dead
            }
        },
        State::Dead => {
            if neighbors == 3 {
                State::Alive
            } else {
                State::Dead
            }
        },
    }
}

} // verus!
