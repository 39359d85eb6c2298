//! What an agent can sense.

use crate::rng::coin_of;
use crate::rng::RandomSource;
use vstd::prelude::*;

verus! {

/// What a neighbour sensor asks of the cell next to the agent.
#[derive(Clone, Copy, Debug, PartialEq, Eq, Hash, Structural)]
pub enum NeighbourType {
    /// The cell is taken.
    Any,
    /// The cell is free.
    Empty,
    /// The cell is taken by the agent's own group.
    Friend,
    /// The cell is not taken by the agent's own group.
    Enemy,
    /// The cell is taken by the given group.
    Pool(usize),
}

impl NeighbourType {
    /// The kind that two draws pick: the first gives the group of the
    /// `Pool` candidate, the second picks among `Any`, `Friend`, `Enemy`
    /// and that candidate.
    pub open spec fn picked(group_draw: u32, choice_draw: u32) -> NeighbourType {
        if choice_draw % 4 == 0 {
            NeighbourType::Any
        } else if choice_draw % 4 == 1 {
            NeighbourType::Friend
        } else if choice_draw % 4 == 2 {
            NeighbourType::Enemy
        } else {
            NeighbourType::Pool((group_draw % 3) as usize)
        }
    }

    /// The kind that two draws pick.
    pub fn pick(group_draw: u32, choice_draw: u32) -> (kind: NeighbourType)
        ensures
            kind == NeighbourType::picked(group_draw, choice_draw),
    {
        let k: u32 = choice_draw % 4;
        if k == 0 {
            NeighbourType::Any
        } else if k == 1 {
            NeighbourType::Friend
        } else if k == 2 {
            NeighbourType::Enemy
        } else {
            let group: u32 = group_draw % 3;
            NeighbourType::Pool(group as usize)
        }
    }

    /// The kind that the next two draws of a source pick.
    pub open spec fn drawn(rng: RandomSource) -> NeighbourType {
        NeighbourType::picked(rng.peek(0), rng.peek(1))
    }

    /// A kind picked by the next two draws.
    pub fn sample(rng: &mut RandomSource) -> (kind: NeighbourType)
        ensures
            kind == NeighbourType::drawn(*old(rng)),
            *final(rng) == old(rng).skip(2),
    {
        proof {
            old(rng).lemma_skip(1, 0);
            old(rng).lemma_skip(1, 1);
        }
        let group_draw = rng.next_u32();
        let choice_draw = rng.next_u32();
        NeighbourType::pick(group_draw, choice_draw)
    }
}

/// An input of the network.
#[derive(Clone, Copy, Debug, PartialEq, Eq, Hash, Structural)]
pub enum Sensor {
    /// A wave over the agent's lifetime; the parameter sets its pace.
    Osc(u8),
    /// The agent's place along x (`x` set) or along y, from the middle.
    Loc { x: bool },
    /// The cell one step away along y (`vert` set) or x, forward (`incr`
    /// set) or backward.
    Neighbour { vert: bool, incr: bool, kind: NeighbourType },
    /// A constant.
    Bias(i8),
    /// A fresh random value at every tick.
    Random,
    /// Nothing: never read.
    Null,
    /// Whether the agent would survive the round as things stand.
    Alive,
    /// Whether the agent would not survive the round as things stand.
    Dead,
}

impl Sensor {
    /// The sensor that six draws pick: a place sensor whose axis the first
    /// draw sets, or a neighbour sensor made of the next four; the last draw
    /// chooses between the two.
    pub open spec fn picked(d: Seq<u32>) -> Sensor
        recommends
            d.len() == 6,
    {
        if d[5] % 2 == 0 {
            Sensor::Loc { x: coin_of(d[0]) }
        } else {
            Sensor::Neighbour {
                vert: coin_of(d[1]),
                incr: coin_of(d[2]),
                kind: NeighbourType::picked(d[3], d[4]),
            }
        }
    }

    /// The sensor that the next six draws of a source pick.
    pub open spec fn drawn(rng: RandomSource) -> Sensor {
        Sensor::picked(Seq::new(6, |k: int| rng.peek(k)))
    }

    /// A sensor picked by the next six draws.
    #[verifier::rlimit(30)]
    pub fn sample(rng: &mut RandomSource) -> (sensor: Sensor)
        ensures
            sensor == Sensor::drawn(*old(rng)),
            *final(rng) == old(rng).skip(6),
    {
        proof {
            old(rng).lemma_skip(1, 0);
            old(rng).lemma_skip(1, 1);
            old(rng).lemma_skip(2, 0);
            old(rng).lemma_skip(2, 1);
            old(rng).lemma_skip(3, 0);
            old(rng).lemma_skip(3, 2);
            old(rng).lemma_skip(5, 0);
            old(rng).lemma_skip(5, 1);
        }
        let x = rng.coin();
        let vert = rng.coin();
        let incr = rng.coin();
        let kind = NeighbourType::sample(rng);
        let choice = rng.next_u32();
        if choice % 2 == 0 {
            Sensor::Loc { x }
        } else {
            Sensor::Neighbour { vert, incr, kind }
        }
    }
}

} // verus!
