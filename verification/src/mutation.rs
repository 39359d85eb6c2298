//! The structural edits that evolve a genome.

use crate::actions::Action;
use crate::assoc::keys_distinct;
use crate::input::Sensor;
use crate::net::color_wf;
use crate::net::grown;
use crate::net::linked;
use crate::net::Net;
use crate::net::NetGenome;
use crate::net::NetNodes;
use crate::net::NeuralLink;
use crate::net::NeuralSource;
use crate::net::NeuralTarget;
use crate::net::NeuronID;
use crate::net::node_views;
use crate::net::nodes_wf;
use crate::net::NodeView;
use crate::net::Synapse;
use crate::net::toward_zero;
use crate::prune::pruned;
use crate::rng::RandomSource;
use vstd::prelude::*;

verus! {

/// A new hidden neuron takes its name from `0..HIDDEN_NAMES`.
pub const HIDDEN_NAMES: u32 = 10;

/// How many edits `randomize` samples before it falls back on
/// the one that always applies.
pub const EDIT_ATTEMPTS: usize = 16;

/// The nodes with one more synapse whose link the next two draws make.
pub open spec fn link_drawn(
    nodes: Seq<NodeView>,
    source: NeuralSource,
    target: NeuralTarget,
    rng: RandomSource,
) -> Seq<NodeView> {
    linked(nodes, source, target, NeuralLink::made(rng.peek(0), rng.peek(1)))
}

/// The names of the hidden nodes among the first `n` nodes, in their order.
pub open spec fn hidden_ids(nodes: Seq<NodeView>, n: int) -> Seq<NeuronID>
    decreases n,
{
    if n <= 0 {
        Seq::empty()
    } else {
        match nodes[n - 1].0 {
            NeuralTarget::Neuron(h) => hidden_ids(nodes, n - 1).push(h),
            NeuralTarget::Action(_) => hidden_ids(nodes, n - 1),
        }
    }
}

/// Whether a source is of the asked kind: hidden, or a sensor.
pub open spec fn is_kind(source: NeuralSource, hidden: bool) -> bool {
    match source {
        NeuralSource::Hidden(_) => hidden,
        NeuralSource::Sensor(_) => !hidden,
    }
}

/// The places, as node and synapse index, of the synapses of the asked kind
/// among the first `m` synapses of node `i`.
pub open spec fn places_in(inputs: Seq<Synapse>, hidden: bool, i: usize, m: int) -> Seq<
    (usize, usize),
>
    decreases m,
{
    if m <= 0 {
        Seq::empty()
    } else if is_kind(inputs[m - 1].0, hidden) {
        places_in(inputs, hidden, i, m - 1).push((i, (m - 1) as usize))
    } else {
        places_in(inputs, hidden, i, m - 1)
    }
}

/// The places of the synapses of the asked kind in the first `n` nodes,
/// node by node.
pub open spec fn places(nodes: Seq<NodeView>, hidden: bool, n: int) -> Seq<(usize, usize)>
    decreases n,
{
    if n <= 0 {
        Seq::empty()
    } else {
        places(nodes, hidden, n - 1) + places_in(
            nodes[n - 1].1,
            hidden,
            (n - 1) as usize,
            nodes[n - 1].1.len() as int,
        )
    }
}

/// The nodes without the synapse at `place`.
pub open spec fn unlinked(nodes: Seq<NodeView>, place: (usize, usize)) -> Seq<NodeView> {
    nodes.update(
        place.0 as int,
        (nodes[place.0 as int].0, nodes[place.0 as int].1.remove(place.1 as int)),
    )
}

/// Taking a synapse out keeps the nodes well formed.
pub proof fn lemma_unlinked_wf(nodes: Seq<NodeView>, place: (usize, usize))
    requires
        nodes_wf(nodes),
        place.0 < nodes.len(),
        place.1 < nodes[place.0 as int].1.len(),
    ensures
        nodes_wf(unlinked(nodes, place)),
{
    let t = unlinked(nodes, place);
    let inputs = nodes[place.0 as int].1;
    let rest = inputs.remove(place.1 as int);
    assert(keys_distinct(inputs));
    assert forall|a: int, b: int| 0 <= a < b < rest.len() implies (#[trigger] rest[a]).0 != (
    #[trigger] rest[b]).0 by {
        let a0 = if a < place.1 { a } else { a + 1 };
        let b0 = if b < place.1 { b } else { b + 1 };
        assert(rest[a] == inputs[a0]);
        assert(rest[b] == inputs[b0]);
        assert(inputs[a0].0 != inputs[b0].0);
    }
    assert forall|i: int, j: int| 0 <= i < j < t.len() implies (#[trigger] t[i]).0 != (
    #[trigger] t[j]).0 by {
        assert(nodes[i].0 != nodes[j].0);
    }
    assert forall|i: int| 0 <= i < t.len() implies keys_distinct((#[trigger] t[i]).1) by {
        if i != place.0 {
            assert(t[i] == nodes[i]);
        }
    }
}

/// A structural edit of a genome.
#[derive(Clone, Copy, Debug, PartialEq, Eq, Structural)]
pub enum NetMutations {
    /// A synapse from a sensor into an action node.
    AddLinkFromSensorToAction,
    /// A synapse from a sensor into a hidden node that exists.
    AddLinkFromSensorToHidden,
    /// A synapse from one hidden node into another.
    AddLinkFromHiddenToHidden,
    /// A synapse from a hidden node into an action node.
    AddLinkFromHiddenToAction,
    /// One synapse that reads a sensor is taken out.
    RemoveLinkFromSensor,
    /// One synapse that reads a hidden neuron is taken out.
    RemoveLinkFromHidden,
    /// A hidden node, new or not, wired from a sensor and into an action.
    AddHidden,
}

/// What an edit leaves: the nodes, the random source, and whether the edit
/// applied.
pub struct Edited {
    pub nodes: Seq<NodeView>,
    pub rng: RandomSource,
    pub done: bool,
}

impl NetMutations {
    /// The edit that a draw picks: each of the four that add a synapse three
    /// times in fifteen, each of the other three once.
    pub open spec fn picked(draw: u32) -> NetMutations {
        let k = draw % 15;
        if k < 3 {
            NetMutations::AddLinkFromSensorToAction
        } else if k < 6 {
            NetMutations::AddLinkFromSensorToHidden
        } else if k < 9 {
            NetMutations::AddLinkFromHiddenToHidden
        } else if k < 12 {
            NetMutations::AddLinkFromHiddenToAction
        } else if k == 12 {
            NetMutations::RemoveLinkFromSensor
        } else if k == 13 {
            NetMutations::RemoveLinkFromHidden
        } else {
            NetMutations::AddHidden
        }
    }

    /// An edit picked by the next draw.
    pub fn sample(rng: &mut RandomSource) -> (kind: NetMutations)
        ensures
            kind == NetMutations::picked(old(rng).peek(0)),
            *final(rng) == old(rng).skip(1),
    {
        let k: u32 = rng.below(15);
        if k < 3 {
            NetMutations::AddLinkFromSensorToAction
        } else if k < 6 {
            NetMutations::AddLinkFromSensorToHidden
        } else if k < 9 {
            NetMutations::AddLinkFromHiddenToHidden
        } else if k < 12 {
            NetMutations::AddLinkFromHiddenToAction
        } else if k == 12 {
            NetMutations::RemoveLinkFromSensor
        } else if k == 13 {
            NetMutations::RemoveLinkFromHidden
        } else {
            NetMutations::AddHidden
        }
    }

    /// What the edit makes of the nodes. An edit that needs a hidden node
    /// where there is none, or a synapse to take out where there is none,
    /// does not apply: it leaves the nodes and the source as they are.
    pub open spec fn edited(self, nodes: Seq<NodeView>, rng: RandomSource) -> Edited {
        let hidden = hidden_ids(nodes, nodes.len() as int);
        match self {
            NetMutations::AddLinkFromSensorToAction => {
                let sensor = Sensor::drawn(rng);
                let action = Action::at(rng.skip(6).peek(0) as int);
                Edited {
                    nodes: link_drawn(
                        nodes,
                        NeuralSource::Sensor(sensor),
                        NeuralTarget::Action(action),
                        rng.skip(6).skip(1),
                    ),
                    rng: rng.skip(6).skip(1).skip(2),
                    done: true,
                }
            },
            NetMutations::AddLinkFromSensorToHidden => {
                if hidden.len() == 0 {
                    Edited { nodes, rng, done: false }
                } else {
                    let h = hidden[(rng.peek(0) as int) % (hidden.len() as int)];
                    let sensor = Sensor::drawn(rng.skip(1));
                    Edited {
                        nodes: link_drawn(
                            nodes,
                            NeuralSource::Sensor(sensor),
                            NeuralTarget::Neuron(h),
                            rng.skip(1).skip(6),
                        ),
                        rng: rng.skip(1).skip(6).skip(2),
                        done: true,
                    }
                }
            },
            NetMutations::AddLinkFromHiddenToAction => {
                if hidden.len() == 0 {
                    Edited { nodes, rng, done: false }
                } else {
                    let h = hidden[(rng.peek(0) as int) % (hidden.len() as int)];
                    let action = Action::at(rng.skip(1).peek(0) as int);
                    Edited {
                        nodes: link_drawn(
                            nodes,
                            NeuralSource::Hidden(h),
                            NeuralTarget::Action(action),
                            rng.skip(1).skip(1),
                        ),
                        rng: rng.skip(1).skip(1).skip(2),
                        done: true,
                    }
                }
            },
            NetMutations::AddLinkFromHiddenToHidden => {
                if hidden.len() == 0 {
                    Edited { nodes, rng, done: false }
                } else {
                    let from = hidden[(rng.peek(0) as int) % (hidden.len() as int)];
                    let to = hidden[(rng.skip(1).peek(0) as int) % (hidden.len() as int)];
                    Edited {
                        nodes: link_drawn(
                            nodes,
                            NeuralSource::Hidden(from),
                            NeuralTarget::Neuron(to),
                            rng.skip(1).skip(1),
                        ),
                        rng: rng.skip(1).skip(1).skip(2),
                        done: true,
                    }
                }
            },
            NetMutations::AddHidden => {
                let h = rng.peek(0) % HIDDEN_NAMES;
                let sensor = Sensor::drawn(rng.skip(1));
                let wired = link_drawn(
                    nodes,
                    NeuralSource::Sensor(sensor),
                    NeuralTarget::Neuron(h),
                    rng.skip(1).skip(6),
                );
                let after = rng.skip(1).skip(6).skip(2);
                let action = Action::at(after.peek(0) as int);
                Edited {
                    nodes: link_drawn(
                        wired,
                        NeuralSource::Hidden(h),
                        NeuralTarget::Action(action),
                        after.skip(1),
                    ),
                    rng: after.skip(1).skip(2),
                    done: true,
                }
            },
            NetMutations::RemoveLinkFromHidden => {
                let found = places(nodes, true, nodes.len() as int);
                if found.len() == 0 {
                    Edited { nodes, rng, done: false }
                } else {
                    Edited {
                        nodes: unlinked(nodes, found[(rng.peek(0) as int) % (found.len() as int)]),
                        rng: rng.skip(1),
                        done: true,
                    }
                }
            },
            NetMutations::RemoveLinkFromSensor => {
                let found = places(nodes, false, nodes.len() as int);
                if found.len() == 0 {
                    Edited { nodes, rng, done: false }
                } else {
                    Edited {
                        nodes: unlinked(nodes, found[(rng.peek(0) as int) % (found.len() as int)]),
                        rng: rng.skip(1),
                        done: true,
                    }
                }
            },
        }
    }

    /// Applies the edit to the genome and tells whether it applied.
    pub fn mutate(&self, genome: &mut NetGenome, rng: &mut RandomSource) -> (done: bool)
        requires
            old(genome).wf(),
        ensures
            final(genome)@.nodes == self.edited(old(genome)@.nodes, *old(rng)).nodes,
            *final(rng) == self.edited(old(genome)@.nodes, *old(rng)).rng,
            done == self.edited(old(genome)@.nodes, *old(rng)).done,
            final(genome)@.color == old(genome)@.color,
            final(genome).wf(),
            !done ==> final(genome)@ == old(genome)@ && *final(rng) == *old(rng),
    {
        match self {
            NetMutations::AddLinkFromSensorToAction => {
                let sensor = Sensor::sample(rng);
                let action = Action::sample(rng);
                genome.add_link_from_sensor(sensor, NeuralTarget::Action(action), rng);
                true
            },
            NetMutations::AddLinkFromSensorToHidden => {
                let hidden = genome.hidden_nodes();
                if hidden.len() == 0 {
                    return false;
                }
                let h = hidden[pick(rng, hidden.len())];
                let sensor = Sensor::sample(rng);
                genome.add_link_from_sensor(sensor, NeuralTarget::Neuron(h), rng);
                true
            },
            NetMutations::AddLinkFromHiddenToAction => {
                let hidden = genome.hidden_nodes();
                if hidden.len() == 0 {
                    return false;
                }
                let h = hidden[pick(rng, hidden.len())];
                let action = Action::sample(rng);
                genome.add_hidden_link(h, NeuralTarget::Action(action), rng);
                true
            },
            NetMutations::AddLinkFromHiddenToHidden => {
                let hidden = genome.hidden_nodes();
                if hidden.len() == 0 {
                    return false;
                }
                let from = hidden[pick(rng, hidden.len())];
                let to = hidden[pick(rng, hidden.len())];
                genome.add_hidden_link(from, NeuralTarget::Neuron(to), rng);
                true
            },
            NetMutations::AddHidden => {
                let h = rand_h(rng);
                let sensor = Sensor::sample(rng);
                genome.add_link_from_sensor(sensor, NeuralTarget::Neuron(h), rng);
                let action = Action::sample(rng);
                genome.add_hidden_link(h, NeuralTarget::Action(action), rng);
                true
            },
            NetMutations::RemoveLinkFromHidden => genome.remove_link(true, rng),
            NetMutations::RemoveLinkFromSensor => genome.remove_link(false, rng),
        }
    }
}

/// The name that the next draw gives a new hidden neuron.
fn rand_h(rng: &mut RandomSource) -> (h: NeuronID)
    ensures
        h == old(rng).peek(0) % HIDDEN_NAMES,
        *final(rng) == old(rng).skip(1),
{
    rng.below(HIDDEN_NAMES)
}

/// A place in `0..n` picked by the next draw.
fn pick(rng: &mut RandomSource, n: usize) -> (k: usize)
    requires
        n > 0,
    ensures
        k == (old(rng).peek(0) as int) % (n as int),
        k < n,
        *final(rng) == old(rng).skip(1),
{
    let draw = rng.next_u32();
    (draw as usize) % n
}

impl NetGenome {
    /// Adds a synapse that reads `source` into `target`, with a link made by
    /// the next two draws.
    pub fn add_link_from_sensor(
        &mut self,
        source: Sensor,
        target: NeuralTarget,
        rng: &mut RandomSource,
    )
        requires
            old(self).wf(),
        ensures
            final(self)@.nodes == link_drawn(
                old(self)@.nodes,
                NeuralSource::Sensor(source),
                target,
                *old(rng),
            ),
            final(self)@.color == old(self)@.color,
            final(self).wf(),
            *final(rng) == old(rng).skip(2),
    {
        let link = NeuralLink::new(rng);
        self.link(NeuralSource::Sensor(source), target, link);
    }

    /// Adds a synapse that reads the hidden neuron `source` into `target`,
    /// with a link made by the next two draws.
    pub fn add_hidden_link(&mut self, source: NeuronID, target: NeuralTarget, rng: &mut RandomSource)
        requires
            old(self).wf(),
        ensures
            final(self)@.nodes == link_drawn(
                old(self)@.nodes,
                NeuralSource::Hidden(source),
                target,
                *old(rng),
            ),
            final(self)@.color == old(self)@.color,
            final(self).wf(),
            *final(rng) == old(rng).skip(2),
    {
        let link = NeuralLink::new(rng);
        self.link(NeuralSource::Hidden(source), target, link);
    }

    /// The names of the hidden nodes, in the order of the nodes.
    pub fn hidden_nodes(&self) -> (ids: Vec<NeuronID>)
        ensures
            ids@ == hidden_ids(self@.nodes, self@.nodes.len() as int),
    {
        let ghost views = self@.nodes;
        let mut ids: Vec<NeuronID> = Vec::new();
        let mut i: usize = 0;
        while i < self.nodes.len()
            invariant
                i <= self.nodes.len(),
                views == node_views(self.nodes@),
                ids@ == hidden_ids(views, i as int),
            decreases self.nodes.len() - i,
        {
            assert(views[i as int] == (self.nodes[i as int].0, self.nodes[i as int].1@));
            match self.nodes[i].0 {
                NeuralTarget::Neuron(h) => {
                    ids.push(h);
                },
                NeuralTarget::Action(_) => {},
            }
            i += 1;
        }
        ids
    }

    /// The places of the synapses that read a hidden neuron (`hidden` set)
    /// or a sensor, node by node.
    pub fn link_places(&self, hidden: bool) -> (found: Vec<(usize, usize)>)
        ensures
            found@ == places(self@.nodes, hidden, self@.nodes.len() as int),
            forall|k: int|
                0 <= k < found.len() ==> (#[trigger] found[k]).0 < self.nodes.len() && found[k].1
                    < self.nodes[found[k].0 as int].1@.len(),
    {
        let ghost views = self@.nodes;
        let mut found: Vec<(usize, usize)> = Vec::new();
        let mut i: usize = 0;
        while i < self.nodes.len()
            invariant
                i <= self.nodes.len(),
                views == node_views(self.nodes@),
                found@ == places(views, hidden, i as int),
                forall|k: int|
                    0 <= k < found.len() ==> (#[trigger] found[k]).0 < self.nodes.len()
                        && found[k].1 < self.nodes[found[k].0 as int].1@.len(),
            decreases self.nodes.len() - i,
        {
            assert(views[i as int] == (self.nodes[i as int].0, self.nodes[i as int].1@));
            let ghost inputs = views[i as int].1;
            let ghost start = found@;
            let m: usize = self.nodes[i].1.inputs.len();
            let mut j: usize = 0;
            while j < m
                invariant
                    i < self.nodes.len(),
                    j <= m,
                    m == inputs.len(),
                    inputs == self.nodes[i as int].1@,
                    found@ == start + places_in(inputs, hidden, i, j as int),
                    forall|k: int|
                        0 <= k < found.len() ==> (#[trigger] found[k]).0 < self.nodes.len()
                            && found[k].1 < self.nodes[found[k].0 as int].1@.len(),
                decreases m - j,
            {
                let of_kind = match self.nodes[i].1.inputs[j].0 {
                    NeuralSource::Hidden(_) => hidden,
                    NeuralSource::Sensor(_) => !hidden,
                };
                if of_kind {
                    found.push((i, j));
                    assert(found@ =~= start + places_in(inputs, hidden, i, j + 1));
                }
                j += 1;
            }
            i += 1;
        }
        found
    }

    /// Takes out one synapse of the asked kind, picked by the next draw.
    /// Without such a synapse nothing changes and no draw is taken.
    pub fn remove_link(&mut self, hidden: bool, rng: &mut RandomSource) -> (done: bool)
        requires
            old(self).wf(),
        ensures
            done == (places(old(self)@.nodes, hidden, old(self)@.nodes.len() as int).len() > 0),
            done ==> final(self)@.nodes == unlinked(
                old(self)@.nodes,
                places(old(self)@.nodes, hidden, old(self)@.nodes.len() as int)[(old(rng).peek(
                    0,
                ) as int) % (places(
                    old(self)@.nodes,
                    hidden,
                    old(self)@.nodes.len() as int,
                ).len() as int)],
            ) && *final(rng) == old(rng).skip(1),
            !done ==> final(self)@ == old(self)@ && *final(rng) == *old(rng),
            final(self)@.color == old(self)@.color,
            final(self).wf(),
    {
        let found = self.link_places(hidden);
        if found.len() == 0 {
            return false;
        }
        let place = found[pick(rng, found.len())];
        let ghost before = self@.nodes;
        proof {
            lemma_unlinked_wf(before, place);
        }
        self.nodes[place.0].1.inputs.remove(place.1);
        assert(self@.nodes =~= unlinked(before, place));
        true
    }
}

/// What sampled edits make of the nodes: edits are drawn until one applies,
/// at most `left` of them; if none did, a synapse from a sensor into an
/// action is added, which always applies.
pub open spec fn attempted(nodes: Seq<NodeView>, rng: RandomSource, left: nat) -> Edited
    decreases left,
{
    if left == 0 {
        NetMutations::AddLinkFromSensorToAction.edited(nodes, rng)
    } else {
        let tried = NetMutations::picked(rng.peek(0)).edited(nodes, rng.skip(1));
        if tried.done {
            tried
        } else {
            attempted(nodes, rng.skip(1), (left - 1) as nat)
        }
    }
}

/// What `randomize` makes of the nodes: the outcome of the sampled edits,
/// pruned.
#[verifier::opaque]
pub open spec fn randomized(nodes: Seq<NodeView>, rng: RandomSource) -> Edited {
    let tried = attempted(nodes, rng, EDIT_ATTEMPTS as nat);
    Edited { nodes: pruned(tried.nodes), rng: tried.rng, done: true }
}

/// A value brought into the range from zero to one.
pub open spec fn clamp_unit(x: int) -> int {
    if x < 0 {
        0
    } else if x > 1000 {
        1000
    } else {
        x
    }
}

/// The greatest of the three channels.
pub open spec fn top_channel(color: Seq<i32>) -> int {
    let m = if color[0] >= color[1] { color[0] } else { color[1] };
    if m >= color[2] { m as int } else { color[2] as int }
}

/// The colour after a random shift. The first draw picks a channel, the
/// second a shift of at most a fifth either way. A shifted value below zero
/// is mirrored, and the value is kept within zero and one. Then every channel
/// that is not the greatest loses a tenth, but not below zero.
pub open spec fn recolored(color: Seq<i32>, rng: RandomSource) -> Seq<i32> {
    let i = (rng.peek(0) % 3) as int;
    let shift = toward_zero((rng.peek(1) % 2001 - 1000) * 200, 1000);
    let moved = color[i] + shift;
    let shifted = color.update(i, clamp_unit(if moved < 0 { -moved } else { moved }) as i32);
    let top = top_channel(shifted);
    Seq::new(
        3,
        |k: int|
            if shifted[k] != top {
                clamp_unit(shifted[k] - 100) as i32
            } else {
                shifted[k]
            },
    )
}

/// `x` brought into the range from zero to one.
fn clamp(x: i64) -> (y: i32)
    ensures
        y == clamp_unit(x as int),
        0 <= y <= 1000,
{
    if x < 0 {
        0
    } else if x > 1000 {
        1000
    } else {
        x as i32
    }
}

impl NetGenome {
    /// Evolves the genome by one edit and prunes it. Edits are sampled
    /// until one applies; after `EDIT_ATTEMPTS` that did not, a synapse from
    /// a sensor into an action is added.
    pub fn randomize(&mut self, rng: &mut RandomSource)
        requires
            old(self).wf(),
        ensures
            final(self)@.nodes == randomized(old(self)@.nodes, *old(rng)).nodes,
            *final(rng) == randomized(old(self)@.nodes, *old(rng)).rng,
            final(self)@.color == old(self)@.color,
            final(self).wf(),
    {
        reveal(randomized);
        let ghost nodes = self@.nodes;
        let ghost goal = attempted(nodes, *rng, EDIT_ATTEMPTS as nat);
        let mut left: usize = EDIT_ATTEMPTS;
        let mut done: bool = false;
        while left > 0 && !done
            invariant
                self.wf(),
                self@.color == old(self)@.color,
                done ==> self@.nodes == goal.nodes && *rng == goal.rng,
                !done ==> self@.nodes == nodes && goal == attempted(nodes, *rng, left as nat),
            decreases left,
        {
            let kind = NetMutations::sample(rng);
            done = kind.mutate(self, rng);
            left -= 1;
        }
        if !done {
            NetMutations::AddLinkFromSensorToAction.mutate(self, rng);
        }
        self.clear();
    }

    /// Shifts the colour at random.
    #[verifier::rlimit(30)]
    pub fn randomize_color(&mut self, rng: &mut RandomSource)
        ensures
            final(self)@.color == recolored(old(self)@.color, *old(rng)),
            final(self)@.nodes == old(self)@.nodes,
            *final(rng) == old(rng).skip(2),
            color_wf(old(self)@.color) ==> color_wf(final(self)@.color),
    {
        proof {
            old(rng).lemma_skip(1, 0);
            old(rng).lemma_skip(1, 1);
        }
        let i: usize = rng.below(3) as usize;
        let draw: u32 = rng.below(2001);
        let shift: i128 = div_toward_zero_small((draw as i64 - 1000) * 200);
        let moved: i64 = self.color[i] as i64 + shift as i64;
        let folded: i32 = clamp(if moved < 0 { -moved } else { moved });
        self.color[i] = folded;
        let ghost shifted = self.color@;
        let c = self.color;
        let m: i32 = if c[0] >= c[1] { c[0] } else { c[1] };
        let top: i32 = if m >= c[2] { m } else { c[2] };
        let mut k: usize = 0;
        while k < 3
            invariant
                k <= 3,
                c@ == shifted,
                top == top_channel(shifted),
                self.nodes == old(self).nodes,
                forall|j: int|
                    0 <= j < k ==> #[trigger] self.color@[j] == (if shifted[j] != top {
                        clamp_unit(shifted[j] - 100) as i32
                    } else {
                        shifted[j]
                    }),
                forall|j: int| k <= j < 3 ==> #[trigger] self.color@[j] == shifted[j],
            decreases 3 - k,
        {
            if c[k] != top {
                self.color[k] = clamp(c[k] as i64 - 100);
            }
            k += 1;
        }
        assert(self.color@ =~= recolored(old(self)@.color, *old(rng)));
    }
}

/// `a / 1000`, rounded towards zero.
fn div_toward_zero_small(a: i64) -> (q: i128)
    requires
        -1_000_000_000 <= a <= 1_000_000_000,
    ensures
        q == toward_zero(a as int, 1000),
        -1_000_000 <= q <= 1_000_000,
{
    if a >= 0 {
        (a / 1000) as i128
    } else {
        let q: i64 = (-a) / 1000;
        (-q) as i128
    }
}


/// An edit keeps the seed of the random source.
pub proof fn lemma_edited_seed(kind: NetMutations, nodes: Seq<NodeView>, rng: RandomSource)
    ensures
        kind.edited(nodes, rng).rng.seed == rng.seed,
{
}

/// Sampled edits keep the seed of the random source.
pub proof fn lemma_attempted_seed(nodes: Seq<NodeView>, rng: RandomSource, left: nat)
    ensures
        attempted(nodes, rng, left).rng.seed == rng.seed,
    decreases left,
{
    if left == 0 {
        lemma_edited_seed(NetMutations::AddLinkFromSensorToAction, nodes, rng);
    } else {
        lemma_edited_seed(NetMutations::picked(rng.peek(0)), nodes, rng.skip(1));
        lemma_attempted_seed(nodes, rng.skip(1), (left - 1) as nat);
    }
}


/// `randomize` keeps the seed of the random source.
pub proof fn lemma_randomized_seed(nodes: Seq<NodeView>, rng: RandomSource)
    ensures
        randomized(nodes, rng).rng.seed == rng.seed,
{
    reveal(randomized);
    lemma_attempted_seed(nodes, rng, EDIT_ATTEMPTS as nat);
}


/// The colour of a new network: black but for one channel that the first
/// draw picks and the second fills.
pub open spec fn first_color(rng: RandomSource) -> Seq<i32> {
    Seq::new(
        3,
        |k: int|
            if k == rng.peek(0) % 3 {
                (rng.peek(1) % 1000) as i32
            } else {
                0i32
            },
    )
}

impl Net {
    /// A network without nodes, in a colour that the next two draws make.
    pub fn new(rng: &mut RandomSource) -> (net: Net)
        ensures
            net@.genome.nodes == Seq::<NodeView>::empty(),
            net@.genome.color == first_color(*old(rng)),
            net@ == grown(net@.genome),
            net.wf(),
            *final(rng) == old(rng).skip(2),
    {
        proof {
            old(rng).lemma_skip(1, 0);
            old(rng).lemma_skip(1, 1);
        }
        let channel: usize = rng.below(3) as usize;
        let value: u32 = rng.below(1000);
        let mut genome = NetGenome::new();
        let mut color: [i32; 3] = [0, 0, 0];
        color[channel] = value as i32;
        genome.color = color;
        assert(genome@.color =~= first_color(*old(rng)));
        let mut net = Net {
            genome,
            nodes: NetNodes::new(),
            sensors: Vec::new(),
        };
        net.update_nodes();
        net
    }

    /// Evolves the network by one edit of its genome, prunes it, and lets
    /// the network start afresh: every neuron at rest.
    pub fn randomize(&mut self, rng: &mut RandomSource)
        requires
            old(self).genome.wf(),
        ensures
            final(self)@.genome.nodes == randomized(old(self)@.genome.nodes, *old(rng)).nodes,
            final(self)@.genome.color == old(self)@.genome.color,
            final(self)@ == grown(final(self)@.genome),
            final(self).wf(),
            *final(rng) == randomized(old(self)@.genome.nodes, *old(rng)).rng,
    {
        self.genome.randomize(rng);
        self.update_nodes();
    }

    /// Adds a synapse that reads `source` into `target` and lets the
    /// network start afresh.
    pub fn add_link_from_sensor(
        &mut self,
        source: Sensor,
        target: NeuralTarget,
        rng: &mut RandomSource,
    )
        requires
            old(self).genome.wf(),
        ensures
            final(self)@.genome.nodes == link_drawn(
                old(self)@.genome.nodes,
                NeuralSource::Sensor(source),
                target,
                *old(rng),
            ),
            final(self)@.genome.color == old(self)@.genome.color,
            final(self)@ == grown(final(self)@.genome),
            final(self).wf(),
            *final(rng) == old(rng).skip(2),
    {
        self.genome.add_link_from_sensor(source, target, rng);
        self.update_nodes();
    }

    /// Adds a synapse that reads the hidden neuron `source` into `target`
    /// and lets the network start afresh.
    pub fn add_hidden_link(&mut self, source: NeuronID, target: NeuralTarget, rng: &mut RandomSource)
        requires
            old(self).genome.wf(),
        ensures
            final(self)@.genome.nodes == link_drawn(
                old(self)@.genome.nodes,
                NeuralSource::Hidden(source),
                target,
                *old(rng),
            ),
            final(self)@.genome.color == old(self)@.genome.color,
            final(self)@ == grown(final(self)@.genome),
            final(self).wf(),
            *final(rng) == old(rng).skip(2),
    {
        self.genome.add_hidden_link(source, target, rng);
        self.update_nodes();
    }

    /// Prunes the genome and lets the network start afresh.
    pub fn clear(&mut self)
        requires
            old(self).genome.wf(),
        ensures
            final(self)@.genome.nodes == pruned(old(self)@.genome.nodes),
            final(self)@.genome.color == old(self)@.genome.color,
            final(self)@ == grown(final(self)@.genome),
            final(self).wf(),
    {
        self.genome.clear();
        self.update_nodes();
    }
}

} // verus!
