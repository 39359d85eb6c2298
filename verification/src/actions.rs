//! What an agent can do in one tick.

use crate::rng::RandomSource;
use vstd::prelude::*;

verus! {

/// A step of one cell along one axis.
#[derive(Clone, Copy, Debug, PartialEq, Eq, Hash, Structural)]
pub enum Action {
    IncX,
    DecX,
    IncY,
    DecY,
}

/// A list of actions without repeats has at most four entries.
pub proof fn lemma_at_most_four(list: Seq<Action>)
    requires
        forall|p: int, q: int| 0 <= p < q < list.len() ==> list[p] != list[q],
    ensures
        list.len() <= 4,
{
    if list.len() >= 5 {
        assert(list[0] != list[1] && list[0] != list[2] && list[0] != list[3] && list[0]
            != list[4]);
        assert(list[1] != list[2] && list[1] != list[3] && list[1] != list[4]);
        assert(list[2] != list[3] && list[2] != list[4]);
        assert(list[3] != list[4]);
    }
}

impl Action {
    /// The action at a place in the list `IncX, DecX, IncY, DecY`; places
    /// past the end count on from the start.
    pub open spec fn at(i: int) -> Action {
        if i % 4 == 0 {
            Action::IncX
        } else if i % 4 == 1 {
            Action::DecX
        } else if i % 4 == 2 {
            Action::IncY
        } else {
            Action::DecY
        }
    }

    /// The cell offset of the step.
    pub open spec fn spec_offset(self) -> (i32, i32) {
        match self {
            Action::IncX => (1i32, 0i32),
            Action::DecX => (-1i32, 0i32),
            Action::IncY => (0i32, 1i32),
            Action::DecY => (0i32, -1i32),
        }
    }

    /// The action at place `i` of the list, counted round.
    pub fn from_index(i: u32) -> (a: Action)
        ensures
            a == Action::at(i as int),
    {
        let k: u32 = i % 4;
        if k == 0 {
            Action::IncX
        } else if k == 1 {
            Action::DecX
        } else if k == 2 {
            Action::IncY
        } else {
            Action::DecY
        }
    }

    /// The cell offset of the step.
    pub fn offset(&self) -> (d: (i32, i32))
        ensures
            d == self.spec_offset(),
    {
        match self {
            Action::IncX => (1, 0),
            Action::DecX => (-1, 0),
            Action::IncY => (0, 1),
            Action::DecY => (0, -1),
        }
    }

    /// An action picked by the next draw.
    pub fn sample(rng: &mut RandomSource) -> (a: Action)
        ensures
            a == Action::at(old(rng).peek(0) as int),
            *final(rng) == old(rng).skip(1),
    {
        Action::from_index(rng.next_u32())
    }
}

} // verus!
