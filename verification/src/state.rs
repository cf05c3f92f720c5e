use core::ops::{Add, AddAssign};
use vstd::prelude::*;
use vstd::std_specs::convert::{FromSpecImpl, TryFromSpecImpl};
use vstd::std_specs::ops::AddSpecImpl;

verus! {

/// The state of one cell.
#[derive(Debug, Copy, Clone, PartialEq, Eq, Structural)]
pub enum State {
    Dead,
    Alive,
}

/// Why an integer could not be read as a state.
#[derive(Debug, Copy, Clone, PartialEq, Eq, Structural)]
pub enum StateError {
    /// The integer is neither 0 nor 1.
    NonBinaryValue,
}

impl State {
    /// What the state adds to a count of live cells: 1 when alive, 0 when dead.
    pub open spec fn count(self) -> nat {
        match self {
            State::Dead => 0,
            State::Alive => 1,
        }
    }

    /// The state that a draw stands for: alive when it is true, dead when it
    /// is false.
    pub open spec fn of_draw(alive: bool) -> State {
        if alive {
            State::Alive
        } else {
            State::Dead
        }
    }

    /// The other state.
    pub open spec fn flipped(self) -> State {
        match self {
            State::Dead => State::Alive,
            State::Alive => State::Dead,
        }
    }

    /// The character that shows the state in text: an empty upright rectangle
    /// for a dead cell, a filled one for a live cell.
    pub open spec fn glyph(self) -> char {
        match self {
            State::Dead => '\u{25af}',
            State::Alive => '\u{25ae}',
        }
    }

    /// Whether the cell is alive.
    pub fn is_alive(self) -> (alive: bool)
        ensures
            alive <==> self == State::Alive,
    {
        match self {
            Self::Alive => true,
            Self::Dead => false,
        }
    }

    /// Flips the state in place.
    pub fn swap(&mut self)
        ensures
            *final(self) == old(self).flipped(),
    {
        match self {
            Self::Alive => *self = Self::Dead,
            Self::Dead => *self = Self::Alive,
        }
    }

    /// The glyph of the state as a string slice.
    pub fn as_str(&self) -> (text: &'static str)
        ensures
            text@ == seq![self.glyph()],
    {
        proof {
            reveal_strlit("\u{25af}");
            reveal_strlit("\u{25ae}");
        }
        match self {
            Self::Dead => "\u{25af}",
            Self::Alive => "\u{25ae}",
        }
    }

    /// The state as text: its glyph and nothing else.
    pub fn to_string(&self) -> (text: String)
        ensures
            text@ == seq![self.glyph()],
    {
        String::from_str(self.as_str())
    }
}

impl Default for State {
    fn default() -> (state: Self)
        ensures
            state == State::Dead,
    {
        Self::Dead
    }
}

impl From<State> for bool {
    fn from(value: State) -> (alive: bool) {
        value.is_alive()
    }
}

impl FromSpecImpl<State> for bool {
    open spec fn obeys_from_spec() -> bool {
        true
    }

    open spec fn from_spec(value: State) -> bool {
        value == State::Alive
    }
}

impl From<bool> for State {
    fn from(alive: bool) -> (state: State) {
        if alive {
            State::Alive
        } else {
            State::Dead
        }
    }
}

impl FromSpecImpl<bool> for State {
    open spec fn obeys_from_spec() -> bool {
        true
    }

    open spec fn from_spec(alive: bool) -> State {
        State::of_draw(alive)
    }
}

impl TryFrom<u8> for State {
    type Error = StateError;

    fn try_from(value: u8) -> (decoded: Result<Self, Self::Error>) {
        match value {
            0 => Ok(State::Dead),
            1 => Ok(State::Alive),
            _ => Err(StateError::NonBinaryValue),
        }
    }
}

impl TryFromSpecImpl<u8> for State {
    open spec fn obeys_try_from_spec() -> bool {
        true
    }

    open spec fn try_from_spec(value: u8) -> Result<Self, Self::Error> {
        if value == 0 {
            Ok(State::Dead)
        } else if value == 1 {
            Ok(State::Alive)
        } else {
            Err(StateError::NonBinaryValue)
        }
    }
}

impl Add<State> for u8 {
    type Output = u8;

    fn add(self, rhs: State) -> (sum: u8) {
        match rhs {
            State::Dead => self,
            State::Alive => self + 1,
        }
    }
}

impl AddSpecImpl<State> for u8 {
    open spec fn obeys_add_spec() -> bool {
        true
    }

    open spec fn add_req(self, rhs: State) -> bool {
        self + rhs.count() <= u8::MAX
    }

    open spec fn add_spec(self, rhs: State) -> u8 {
        (self + rhs.count()) as u8
    }
}

impl Add<State> for u64 {
    type Output = u64;

    fn add(self, rhs: State) -> (sum: u64) {
        match rhs {
            State::Dead => self,
            State::Alive => self + 1,
        }
    }
}

impl AddSpecImpl<State> for u64 {
    open spec fn obeys_add_spec() -> bool {
        true
    }

    open spec fn add_req(self, rhs: State) -> bool {
        self + rhs.count() <= u64::MAX
    }

    open spec fn add_spec(self, rhs: State) -> u64 {
        (self + rhs.count()) as u64
    }
}

impl AddAssign<State> for u8 {
    fn add_assign(&mut self, rhs: State)
        requires
            *old(self) + rhs.count() <= u8::MAX,
        ensures
            *final(self) == *old(self) + rhs.count(),
    {
        *self = *self + rhs;
    }
}

} // verus!
