//! Genomes: what can be crossed with a partner, and what carries one.

use crate::assoc::distinct;
use crate::assoc::find;
use crate::assoc::has_key;
use crate::assoc::Key;
use crate::assoc::keys_distinct;
use crate::assoc::lemma_first_is_position;
use crate::assoc::lemma_position_bound;
use crate::assoc::lemma_put;
use crate::assoc::position;
use crate::assoc::put;
use crate::net::CHARGE_LIMIT;
use crate::net::color_group;
use crate::net::genome_of;
use crate::net::group_of;
use crate::net::grown;
use crate::net::Net;
use crate::net::NetGenome;
use crate::net::NetGenomeView;
use crate::net::NetNodes;
use crate::net::NeuralSourceGenome;
use crate::net::NeuralTarget;
use crate::net::node_views;
use crate::net::nodes_wf;
use crate::net::NodeView;
use crate::net::slots_of_nodes;
use crate::net::toward_zero;
use crate::rng::coin_of;
use crate::rng::RandomSource;
use vstd::prelude::*;

verus! {

/// A blueprint that can be crossed with another of its kind.
pub trait Genome: Sized {
    /// The genome is well formed.
    spec fn valid(&self) -> bool;

    /// A child of this genome and a partner. Chance comes from `rng`, which
    /// keeps its seed.
    fn mix(&self, partner: &Self, rng: &mut RandomSource) -> (child: Self)
        requires
            self.valid(),
            partner.valid(),
        ensures
            child.valid(),
            final(rng).seed == old(rng).seed,
    ;
}

/// Something that is built from a genome and can give it back.
pub trait HasGenome<T: Genome>: Sized {
    /// The genome of this value.
    fn to_genome(&self) -> (genome: T);

    /// The value that a genome gives.
    fn from_genome(genome: &T) -> (made: Self)
        requires
            genome.valid(),
    ;
}

/// A tenth of `mine` and nine tenths of `theirs`.
pub open spec fn blend(mine: int, theirs: int) -> int {
    toward_zero(mine + 9 * theirs, 10)
}

/// The nodes of a child after the first `n` nodes of the partner had their
/// turn: one draw for each decides whether the partner's node goes to the
/// child, in the place of the child's node of that identity if it has one.
pub open spec fn crossed_nodes(
    mine: Seq<NodeView>,
    theirs: Seq<NodeView>,
    rng: RandomSource,
    n: int,
) -> Seq<NodeView>
    decreases n,
{
    if n <= 0 {
        mine
    } else {
        let before = crossed_nodes(mine, theirs, rng, n - 1);
        if coin_of(rng.peek(n - 1)) {
            put(before, theirs[n - 1].0, theirs[n - 1].1)
        } else {
            before
        }
    }
}

/// The child of two genomes. The first draw picks the colour channel that
/// is blended towards the partner; the draws after it decide node by node.
pub open spec fn crossed(mine: NetGenomeView, theirs: NetGenomeView, rng: RandomSource)
    -> NetGenomeView {
    let channel = (rng.peek(0) % 3) as int;
    NetGenomeView {
        color: mine.color.update(
            channel,
            blend(mine.color[channel] as int, theirs.color[channel] as int) as i32,
        ),
        nodes: crossed_nodes(mine.nodes, theirs.nodes, rng.skip(1), theirs.nodes.len() as int),
    }
}

/// A child has no node that neither parent has, and is well formed if the
/// parents are.
pub proof fn lemma_crossover_genes(
    mine: Seq<NodeView>,
    theirs: Seq<NodeView>,
    rng: RandomSource,
    n: int,
)
    requires
        nodes_wf(mine),
        nodes_wf(theirs),
        0 <= n <= theirs.len(),
    ensures
        nodes_wf(crossed_nodes(mine, theirs, rng, n)),
        forall|gene: NeuralTarget| #[trigger]
            has_key(crossed_nodes(mine, theirs, rng, n), gene) ==> has_key(mine, gene) || has_key(
                theirs,
                gene,
            ),
    decreases n,
{
    if n > 0 {
        lemma_crossover_genes(mine, theirs, rng, n - 1);
        let before = crossed_nodes(mine, theirs, rng, n - 1);
        let after = crossed_nodes(mine, theirs, rng, n);
        if coin_of(rng.peek(n - 1)) {
            let gene = theirs[n - 1].0;
            let node = theirs[n - 1].1;
            lemma_put(before, gene, node);
            assert(after == put(before, gene, node));
            assert(has_key(theirs, gene));
            assert(keys_distinct(theirs[n - 1].1));
            assert forall|other: NeuralTarget| #[trigger] has_key(after, other) implies has_key(
                mine,
                other,
            ) || has_key(theirs, other) by {
                if other != gene {
                    assert(has_key(before, other));
                }
            }
            assert forall|i: int| 0 <= i < after.len() implies keys_distinct(
                (#[trigger] after[i]).1,
            ) by {
                if has_key(before, gene) {
                    lemma_position_bound(before, gene);
                    if i != position(before, gene) {
                        assert(after[i] == before[i]);
                    }
                } else {
                    if i < before.len() {
                        assert(after[i] == before[i]);
                    }
                }
            }
        } else {
            assert(after == before);
        }
    }
}

impl NetGenome {
    /// The group of the genome: that of its colour.
    pub fn pool(&self) -> (group: usize)
        ensures
            group == group_of(self@.color),
            group < 3,
    {
        color_group(&self.color)
    }

    /// A genome without nodes, black.
    pub fn new() -> (genome: NetGenome)
        ensures
            genome@.nodes == Seq::<NodeView>::empty(),
            genome@.color == seq![0i32, 0i32, 0i32],
            genome.wf(),
    {
        let genome = NetGenome { color: [0, 0, 0], nodes: Vec::new() };
        assert(genome@.nodes =~= Seq::<NodeView>::empty());
        assert(genome@.color =~= seq![0i32, 0i32, 0i32]);
        genome
    }

    /// Binds the identity `target` to `node`, in the place of the node of
    /// that identity if there is one, at the end if not.
    pub fn put_node(&mut self, target: NeuralTarget, node: NeuralSourceGenome)
        requires
            old(self).wf(),
            node.wf(),
        ensures
            final(self)@.nodes == put(old(self)@.nodes, target, node@),
            final(self)@.color == old(self)@.color,
            final(self).wf(),
    {
        let ghost before = self@.nodes;
        let ghost raw = self.nodes@;
        proof {
            lemma_put(before, target, node@);
        }
        match find(&self.nodes, &target) {
            Some(i) => {
                proof {
                    assert(before[i as int].0 == target);
                    assert forall|j: int| 0 <= j < i implies (#[trigger] before[j]).0
                        != target by {
                        assert(raw[j].0 != target);
                    }
                    lemma_first_is_position(before, target, i as int);
                }
                self.nodes[i] = (target, node);
                assert(self@.nodes =~= put(before, target, node@));
            },
            None => {
                proof {
                    if has_key(before, target) {
                        let j = choose|j: int|
                            0 <= j < before.len() && (#[trigger] before[j]).0 == target;
                        assert(raw[j].0 == target);
                    }
                }
                self.nodes.push((target, node));
                assert(self@.nodes =~= put(before, target, node@));
            },
        }
        proof {
            let after = put(before, target, node@);
            assert forall|i: int| 0 <= i < after.len() implies keys_distinct(
                (#[trigger] after[i]).1,
            ) by {
                if has_key(before, target) {
                    lemma_position_bound(before, target);
                    if i != position(before, target) {
                        assert(after[i] == before[i]);
                    }
                } else {
                    if i < before.len() {
                        assert(after[i] == before[i]);
                    }
                }
            }
        }
    }
}

impl Genome for NetGenome {
    open spec fn valid(&self) -> bool {
        self.wf()
    }

    /// The child keeps this genome's colour but for one channel, which moves
    /// nine tenths of the way to the partner's, and takes each node of the
    /// partner on the toss of a coin. It has no node that neither parent has.
    fn mix(&self, partner: &Self, rng: &mut RandomSource) -> (child: Self)
        ensures
            child@ == crossed(self@, partner@, *old(rng)),
            *final(rng) == old(rng).skip(1 + partner@.nodes.len() as int),
            forall|gene: NeuralTarget| #[trigger]
                has_key(child@.nodes, gene) ==> has_key(self@.nodes, gene) || has_key(
                    partner@.nodes,
                    gene,
                ),
    {
        let mut child = self.clone();
        let channel: usize = rng.below(3) as usize;
        let blended: i128 = blend_channels(self.color[channel], partner.color[channel]);
        child.color[channel] = blended as i32;
        let ghost start = *rng;
        let ghost theirs = partner@.nodes;
        let mut i: usize = 0;
        proof {
            start.lemma_skip(0, 0);
        }
        while i < partner.nodes.len()
            invariant
                i <= partner.nodes.len(),
                theirs == node_views(partner.nodes@),
                nodes_wf(theirs),
                nodes_wf(self@.nodes),
                child.wf(),
                child@.color == crossed(self@, partner@, *old(rng)).color,
                child@.nodes == crossed_nodes(self@.nodes, theirs, start, i as int),
                *rng == start.skip(i as int),
                start == old(rng).skip(1),
            decreases partner.nodes.len() - i,
        {
            proof {
                start.lemma_skip(i as int, 1);
                start.lemma_skip(i as int, 0);
            }
            if rng.coin() {
                assert(theirs[i as int] == (partner.nodes[i as int].0, partner.nodes[i as int].1@));
                assert(keys_distinct(theirs[i as int].1));
                let node = partner.nodes[i].1.clone();
                child.put_node(partner.nodes[i].0, node);
            }
            i += 1;
        }
        proof {
            lemma_crossover_genes(self@.nodes, theirs, start, theirs.len() as int);
            old(rng).lemma_skip(1, i as int);
        }
        child
    }
}

impl HasGenome<NetGenome> for Net {
    /// The genome of the network: colour, nodes and synapses as they are.
    fn to_genome(&self) -> (genome: NetGenome)
        ensures
            genome@ == genome_of(self@),
    {
        self.genome.clone()
    }

    /// The network that a genome gives: its colour, nodes and synapses, with
    /// every neuron at rest.
    fn from_genome(genome: &NetGenome) -> (net: Net)
        ensures
            net@ == grown(genome@),
            net.wf(),
    {
        let mut net = Net { genome: genome.clone(), nodes: NetNodes::new(), sensors: Vec::new() };
        net.update_nodes();
        net
    }
}

/// A tenth of `mine` and nine tenths of `theirs`.
fn blend_channels(mine: i32, theirs: i32) -> (b: i128)
    ensures
        b == blend(mine as int, theirs as int),
        i32::MIN <= b <= i32::MAX,
{
    let sum: i128 = mine as i128 + 9 * (theirs as i128);
    if sum >= 0 {
        sum / 10
    } else {
        let q: i128 = (-sum) / 10;
        -q
    }
}


impl NetGenome {
    /// Whether the genome is well formed: every channel of the colour
    /// between zero and one, no node twice, no source twice in a node.
    pub fn check(&self) -> (ok: bool)
        ensures
            ok == self.wf(),
    {
        let ghost nodes = self@.nodes;
        let mut c: usize = 0;
        while c < 3
            invariant
                c <= 3,
                forall|k: int| 0 <= k < c ==> 0 <= #[trigger] self.color@[k] <= 1000,
            decreases 3 - c,
        {
            if self.color[c] < 0 || self.color[c] > 1000 {
                return false;
            }
            c += 1;
        }
        let keys_ok = distinct(&self.nodes);
        proof {
            if keys_distinct(self.nodes@) {
                assert forall|i: int, j: int| 0 <= i < j < nodes.len() implies (
                #[trigger] nodes[i]).0 != (#[trigger] nodes[j]).0 by {
                    assert(self.nodes@[i].0 != self.nodes@[j].0);
                }
            }
            if keys_distinct(nodes) {
                assert forall|i: int, j: int| 0 <= i < j < self.nodes@.len() implies (
                #[trigger] self.nodes@[i]).0 != (#[trigger] self.nodes@[j]).0 by {
                    assert(nodes[i].0 != nodes[j].0);
                }
            }
        }
        if !keys_ok {
            return false;
        }
        let mut i: usize = 0;
        while i < self.nodes.len()
            invariant
                i <= self.nodes.len(),
                nodes == node_views(self.nodes@),
                forall|k: int| 0 <= k < i ==> keys_distinct((#[trigger] nodes[k]).1),
            decreases self.nodes.len() - i,
        {
            assert(nodes[i as int] == (self.nodes@[i as int].0, self.nodes@[i as int].1@));
            if !distinct(&self.nodes[i].1.inputs) {
                return false;
            }
            i += 1;
        }
        true
    }
}

impl Net {
    /// Whether the runtime state fits the genome.
    pub fn check(&self) -> (ok: bool)
        ensures
            ok == self.wf(),
    {
        if !self.genome.check() {
            return false;
        }
        let ghost net = self@;
        if self.nodes.neurons.len() != self.genome.nodes.len() {
            return false;
        }
        let mut i: usize = 0;
        while i < self.nodes.neurons.len()
            invariant
                i <= self.nodes.neurons.len(),
                net == self@,
                net.neurons.len() == net.genome.nodes.len(),
                forall|k: int|
                    0 <= k < i ==> (#[trigger] net.neurons[k]).0 == net.genome.nodes[k].0
                        && net.neurons[k].1.wf(),
            decreases self.nodes.neurons.len() - i,
        {
            assert(net.genome.nodes[i as int] == (
                self.genome.nodes@[i as int].0,
                self.genome.nodes@[i as int].1@,
            ));
            let charge = self.nodes.neurons[i].1.charge;
            if !self.nodes.neurons[i].0.same(&self.genome.nodes[i].0) || charge
                < -CHARGE_LIMIT || charge > CHARGE_LIMIT {
                assert(!((net.neurons[i as int]).0 == net.genome.nodes[i as int].0
                    && net.neurons[i as int].1.wf()));
                return false;
            }
            i += 1;
        }
        let slots = self.genome.slots();
        if self.sensors.len() != slots.len() {
            return false;
        }
        let mut k: usize = 0;
        while k < slots.len()
            invariant
                k <= slots.len(),
                net == self@,
                slots@ == slots_of_nodes(net.genome.nodes),
                net.sensors.len() == slots.len(),
                forall|j: int|
                    0 <= j < k ==> (#[trigger] net.sensors[j]).0 == slots_of_nodes(
                        net.genome.nodes,
                    )[j].0,
            decreases slots.len() - k,
        {
            if !self.sensors[k].0.same(&slots[k].0) {
                assert(!((net.sensors[k as int]).0 == slots_of_nodes(
                    net.genome.nodes,
                )[k as int].0));
                return false;
            }
            k += 1;
        }
        true
    }
}

} // verus!
