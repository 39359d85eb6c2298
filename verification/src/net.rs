//! The neural network of an agent and its genome.
//!
//! Charges, weights and signals are fixed-point numbers in thousandths.

use crate::actions::Action;
use crate::actions::lemma_at_most_four;
use crate::assoc::find;
use crate::assoc::has_key;
use crate::assoc::Key;
use crate::assoc::keys_distinct;
use crate::assoc::lemma_position;
use crate::assoc::lemma_position_bound;
use crate::assoc::lemma_put;
use crate::assoc::position;
use crate::assoc::put;
use crate::input::Sensor;
use crate::rng::coin_of;
use crate::rng::RandomSource;
use vstd::prelude::*;

verus! {

/// The name of a hidden neuron.
pub type NeuronID = u32;

/// One in fixed point.
pub const UNIT: i32 = 1000;

/// A neuron fires when the magnitude of its output exceeds this.
pub const FIRING_THRESHOLD: i32 = 500;

/// Weights are drawn from `0..WEIGHT_RANGE`.
pub const WEIGHT_RANGE: u32 = 4000;

/// No charge grows beyond this magnitude: what is left of a charge after a
/// discharge plus one full input never exceeds it.
pub const CHARGE_LIMIT: i32 = 10000;

/// The hyperbolic tangent at `k` quarters, in thousandths.
pub open spec fn tanh_knot(k: int) -> int {
    if k <= 0 {
        0
    } else if k == 1 {
        245
    } else if k == 2 {
        462
    } else if k == 3 {
        635
    } else if k == 4 {
        762
    } else if k == 5 {
        848
    } else if k == 6 {
        905
    } else if k == 7 {
        941
    } else if k == 8 {
        964
    } else if k == 9 {
        978
    } else if k == 10 {
        987
    } else if k == 11 {
        992
    } else if k == 12 {
        995
    } else if k == 13 {
        997
    } else if k == 14 {
        998
    } else if k == 15 {
        999
    } else {
        1000
    }
}

/// The hyperbolic tangent in fixed point: within a thousandth of it at
/// every quarter up to four, a straight line between two quarters, one
/// beyond four, and odd.
pub open spec fn tanh_milli(x: int) -> int {
    let m = if x < 0 { -x } else { x };
    let y = if m >= 4000 {
        1000
    } else {
        tanh_knot(m / 250) + (tanh_knot(m / 250 + 1) - tanh_knot(m / 250)) * (m % 250) / 250
    };
    if x < 0 {
        -y
    } else {
        y
    }
}

/// On a non-negative argument the fixed-point tangent lies between zero
/// and one.
proof fn lemma_tanh_nonnegative(m: int)
    requires
        m >= 0,
    ensures
        0 <= tanh_milli(m) <= 1000,
        m == 0 ==> tanh_milli(m) == 0,
{
    if m < 4000 {
        let k = m / 250;
        let r = m % 250;
        let d = tanh_knot(k + 1) - tanh_knot(k);
        assert(0 <= k < 16);
        assert(0 <= d <= 245);
        assert(0 <= d * r <= d * 250) by (nonlinear_arith)
            requires
                0 <= d,
                0 <= r < 250,
        ;
        assert(0 <= d * r / 250 <= d) by (nonlinear_arith)
            requires
                0 <= d * r <= d * 250,
        ;
        assert(tanh_milli(m) == tanh_knot(k) + d * r / 250);
        if m == 0 {
            assert(d * r == 0) by (nonlinear_arith)
                requires
                    r == 0,
            ;
        }
    }
}

/// The fixed-point tangent stays within one, keeps the sign and is odd.
pub proof fn lemma_tanh_bounds(x: int)
    ensures
        -1000 <= tanh_milli(x) <= 1000,
        x >= 0 ==> tanh_milli(x) >= 0,
        x <= 0 ==> tanh_milli(x) <= 0,
        tanh_milli(-x) == -tanh_milli(x),
{
    if x >= 0 {
        lemma_tanh_nonnegative(x);
        if x > 0 {
            assert(tanh_milli(-x) == -tanh_milli(x));
        }
    } else {
        lemma_tanh_nonnegative(-x);
        assert(tanh_milli(x) == -tanh_milli(-x));
    }
}

/// A product or a charge cut back to whole thousandths, towards zero.
pub open spec fn toward_zero(a: int, d: int) -> int
    recommends
        d > 0,
{
    if a >= 0 {
        a / d
    } else {
        -((-a) / d)
    }
}

/// `a / d`, rounded towards zero.
fn div_toward_zero(a: i128, d: i128) -> (q: i128)
    requires
        d > 0,
        a > i128::MIN,
    ensures
        q == toward_zero(a as int, d as int),
{
    if a >= 0 {
        a / d
    } else {
        let q: i128 = (-a) / d;
        -q
    }
}

/// A mean lies within the bound of its terms.
proof fn lemma_mean_bound(sum: int, n: int, bound: int)
    requires
        n > 0,
        bound >= 0,
        -(bound * n) <= sum <= bound * n,
    ensures
        -bound <= toward_zero(sum, n) <= bound,
{
    if sum >= 0 {
        assert(0 <= sum / n <= bound) by (nonlinear_arith)
            requires
                0 <= sum <= bound * n,
                n > 0,
        ;
    } else {
        assert(0 <= (-sum) / n <= bound) by (nonlinear_arith)
            requires
                0 <= -sum <= bound * n,
                n > 0,
        ;
    }
}

/// The knot of the tangent table at `k`.
fn knot(k: i64) -> (v: i64)
    ensures
        v == tanh_knot(k as int),
{
    if k <= 0 {
        0
    } else if k == 1 {
        245
    } else if k == 2 {
        462
    } else if k == 3 {
        635
    } else if k == 4 {
        762
    } else if k == 5 {
        848
    } else if k == 6 {
        905
    } else if k == 7 {
        941
    } else if k == 8 {
        964
    } else if k == 9 {
        978
    } else if k == 10 {
        987
    } else if k == 11 {
        992
    } else if k == 12 {
        995
    } else if k == 13 {
        997
    } else if k == 14 {
        998
    } else if k == 15 {
        999
    } else {
        1000
    }
}

/// The fixed-point hyperbolic tangent of `x`.
pub fn squash(x: i64) -> (y: i32)
    ensures
        y == tanh_milli(x as int),
        -1000 <= y <= 1000,
{
    proof {
        lemma_tanh_bounds(x as int);
    }
    if x >= 4000 {
        1000
    } else if x <= -4000 {
        -1000
    } else {
        let m: i64 = if x < 0 { -x } else { x };
        let k: i64 = m / 250;
        let r: i64 = m % 250;
        let lo: i64 = knot(k);
        let hi: i64 = knot(k + 1);
        assert(0 <= hi - lo <= 245);
        assert(0 <= (hi - lo) * r <= 245 * 250) by (nonlinear_arith)
            requires
                0 <= hi - lo <= 245,
                0 <= r < 250,
        ;
        let y: i64 = lo + (hi - lo) * r / 250;
        if x < 0 {
            (-y) as i32
        } else {
            y as i32
        }
    }
}

/// The charge of one node of a live network.
#[derive(Clone, Copy, Debug, PartialEq, Eq, Structural)]
pub struct Neuron {
    pub charge: i32,
}

impl Neuron {
    /// The charge stays within the limit.
    pub open spec fn wf(&self) -> bool {
        -CHARGE_LIMIT <= self.charge <= CHARGE_LIMIT
    }

    /// What a discharge leaves of a charge: nine tenths.
    pub open spec fn spec_discharged(charge: int) -> int {
        toward_zero(charge * 9, 10)
    }

    /// The saturated output of the neuron.
    pub open spec fn spec_output(&self) -> int {
        tanh_milli(self.charge as int)
    }

    /// Whether the output is strong enough to fire.
    pub open spec fn spec_fires(&self) -> bool {
        self.spec_output() > FIRING_THRESHOLD || self.spec_output() < -FIRING_THRESHOLD
    }

    /// A neuron at rest.
    pub fn new() -> (n: Neuron)
        ensures
            n.charge == 0,
            n.wf(),
    {
        Neuron { charge: 0 }
    }

    /// Lets a tenth of the charge leak away.
    pub fn discharge(&mut self)
        ensures
            final(self).charge == Neuron::spec_discharged(old(self).charge as int),
            old(self).wf() ==> -9000 <= final(self).charge <= 9000,
    {
        let c: i128 = self.charge as i128;
        let d: i128 = div_toward_zero(c * 9, 10);
        self.charge = d as i32;
    }

    /// The saturated output: the fixed-point tangent of the charge.
    pub fn output(&self) -> (y: i32)
        ensures
            y == self.spec_output(),
            -1000 <= y <= 1000,
    {
        squash(self.charge as i64)
    }

    /// Fires if the output is strong enough; a neuron that fires loses its
    /// charge.
    pub fn fires(&mut self) -> (fired: bool)
        ensures
            fired == old(self).spec_fires(),
            final(self).charge == if fired { 0 } else { old(self).charge },
    {
        let y = self.output();
        if y > FIRING_THRESHOLD || y < -FIRING_THRESHOLD {
            self.charge = 0;
            true
        } else {
            false
        }
    }
}

/// The identity of a node of the network: a hidden neuron or the neuron
/// that drives an action.
#[derive(Clone, Copy, Debug, PartialEq, Eq, Hash, Structural)]
pub enum NeuralTarget {
    Neuron(NeuronID),
    Action(Action),
}

/// Where a synapse takes its signal from.
#[derive(Clone, Copy, Debug, PartialEq, Eq, Hash, Structural)]
pub enum NeuralSource {
    Sensor(Sensor),
    Hidden(NeuronID),
}

/// A synapse: a weight and whether it reads its signal inverted.
#[derive(Clone, Copy, Debug, PartialEq, Eq, Hash, Structural)]
pub struct NeuralLink {
    pub inverse: bool,
    pub weight: i32,
}

impl NeuralLink {
    /// The link that two draws make: the first gives the weight, the second
    /// the inversion.
    pub open spec fn made(weight_draw: u32, inverse_draw: u32) -> NeuralLink {
        NeuralLink { inverse: coin_of(inverse_draw), weight: (weight_draw % WEIGHT_RANGE) as i32 }
    }

    /// What the synapse passes on of the signal `x`: the tangent of the
    /// weighted signal, or of the weighted rest to one if it is inverted.
    pub open spec fn spec_output(&self, x: int) -> int {
        if self.inverse {
            tanh_milli(toward_zero(self.weight * (UNIT - x), UNIT as int))
        } else {
            tanh_milli(toward_zero(self.weight * x, UNIT as int))
        }
    }

    /// A link made by the next two draws.
    pub fn new(rng: &mut RandomSource) -> (link: NeuralLink)
        ensures
            link == NeuralLink::made(old(rng).peek(0), old(rng).peek(1)),
            0 <= link.weight < WEIGHT_RANGE,
            *final(rng) == old(rng).skip(2),
    {
        proof {
            old(rng).lemma_skip(1, 0);
            old(rng).lemma_skip(1, 1);
        }
        let w: u32 = rng.below(WEIGHT_RANGE);
        let inverse = rng.coin();
        NeuralLink { inverse, weight: w as i32 }
    }

    /// What the synapse passes on of the signal `x`.
    pub fn output(&self, x: i32) -> (y: i32)
        ensures
            y == self.spec_output(x as int),
            -1000 <= y <= 1000,
    {
        let signal: i64 = if self.inverse { UNIT as i64 - x as i64 } else { x as i64 };
        assert(-0x7000_0000_0000_0000 < (self.weight as i64) * signal < 0x7000_0000_0000_0000)
            by (nonlinear_arith)
            requires
                -0x8000_0000 <= self.weight as i64 <= 0x7fff_ffff,
                -0x8000_0000 <= signal <= 0x8000_03e8,
        ;
        let product: i64 = (self.weight as i64) * signal;
        let scaled: i128 = div_toward_zero(product as i128, UNIT as i128);
        squash(scaled as i64)
    }
}

impl Key for NeuralTarget {
    fn same(&self, other: &Self) -> (b: bool) {
        *self == *other
    }
}

impl Key for NeuralSource {
    fn same(&self, other: &Self) -> (b: bool) {
        *self == *other
    }
}

impl Key for Sensor {
    fn same(&self, other: &Self) -> (b: bool) {
        *self == *other
    }
}

/// A synapse together with the source it reads.
pub type Synapse = (NeuralSource, NeuralLink);

/// A node as a value: its identity and its synapses.
pub type NodeView = (NeuralTarget, Seq<Synapse>);

/// The synapses that feed one node, keyed by their source. This is the part
/// of a genome that competes for the node's place in the next generation.
#[derive(Debug)]
pub struct NeuralSourceGenome {
    pub inputs: Vec<(NeuralSource, NeuralLink)>,
}

impl View for NeuralSourceGenome {
    type V = Seq<Synapse>;

    open spec fn view(&self) -> Seq<Synapse> {
        self.inputs@
    }
}

impl Clone for NeuralSourceGenome {
    fn clone(&self) -> (copy: Self)
        ensures
            copy@ == self@,
    {
        let mut inputs: Vec<(NeuralSource, NeuralLink)> = Vec::new();
        let mut i: usize = 0;
        while i < self.inputs.len()
            invariant
                i <= self.inputs.len(),
                inputs@ == self.inputs@.take(i as int),
            decreases self.inputs.len() - i,
        {
            inputs.push(self.inputs[i]);
            assert(inputs@ =~= self.inputs@.take(i + 1));
            i += 1;
        }
        assert(self.inputs@.take(i as int) =~= self.inputs@);
        NeuralSourceGenome { inputs }
    }
}

impl NeuralSourceGenome {
    /// No source feeds the node twice.
    pub open spec fn wf(&self) -> bool {
        keys_distinct(self@)
    }

    /// A node that nothing feeds.
    pub fn new() -> (node: NeuralSourceGenome)
        ensures
            node@ == Seq::<Synapse>::empty(),
            node.wf(),
    {
        NeuralSourceGenome { inputs: Vec::new() }
    }

    /// Binds `source` to `link`, in the place of the synapse that read
    /// `source` before if there was one.
    pub fn insert(&mut self, source: NeuralSource, link: NeuralLink)
        requires
            old(self).wf(),
        ensures
            final(self)@ == put(old(self)@, source, link),
            final(self).wf(),
    {
        proof {
            lemma_put(self@, source, link);
        }
        match find(&self.inputs, &source) {
            Some(i) => {
                self.inputs[i] = (source, link);
            },
            None => {
                self.inputs.push((source, link));
            },
        }
    }
}

/// The nodes of a list as values.
pub open spec fn node_views(nodes: Seq<(NeuralTarget, NeuralSourceGenome)>) -> Seq<NodeView> {
    nodes.map_values(|n: (NeuralTarget, NeuralSourceGenome)| (n.0, n.1@))
}

/// The node list with one more synapse, from `source` into `target`: bound
/// in the node of `target` if there is one, else in a new node at the end.
pub open spec fn linked(
    nodes: Seq<NodeView>,
    source: NeuralSource,
    target: NeuralTarget,
    link: NeuralLink,
) -> Seq<NodeView> {
    if has_key(nodes, target) {
        let p = position(nodes, target);
        nodes.update(p, (target, put(nodes[p].1, source, link)))
    } else {
        nodes.push((target, seq![(source, link)]))
    }
}

/// A genome as a value: the colour and the nodes with their synapses.
pub struct NetGenomeView {
    pub color: Seq<i32>,
    pub nodes: Seq<NodeView>,
}

/// Every channel lies between zero and one.
pub open spec fn color_wf(color: Seq<i32>) -> bool {
    &&& color.len() == 3
    &&& forall|k: int| 0 <= k < 3 ==> 0 <= #[trigger] color[k] <= 1000
}

/// No node occurs twice, and no source feeds a node twice.
pub open spec fn nodes_wf(nodes: Seq<NodeView>) -> bool {
    &&& keys_distinct(nodes)
    &&& forall|i: int| 0 <= i < nodes.len() ==> keys_distinct((#[trigger] nodes[i]).1)
}

/// The blueprint of a network: a colour of three channels, each between
/// zero and one, and the nodes with their synapses.
#[derive(Debug)]
pub struct NetGenome {
    pub color: [i32; 3],
    pub nodes: Vec<(NeuralTarget, NeuralSourceGenome)>,
}

impl View for NetGenome {
    type V = NetGenomeView;

    open spec fn view(&self) -> NetGenomeView {
        NetGenomeView { color: self.color@, nodes: node_views(self.nodes@) }
    }
}

impl NetGenome {
    /// The colour and the nodes are well formed.
    pub open spec fn wf(&self) -> bool {
        nodes_wf(self@.nodes) && color_wf(self@.color)
    }

    /// Adds a synapse from `source` into `target`.
    pub fn link(&mut self, source: NeuralSource, target: NeuralTarget, link: NeuralLink)
        requires
            old(self).wf(),
        ensures
            final(self)@.nodes == linked(old(self)@.nodes, source, target, link),
            final(self)@.color == old(self)@.color,
            final(self).wf(),
    {
        let ghost before = self@.nodes;
        match find(&self.nodes, &target) {
            Some(i) => {
                proof {
                    assert(before[i as int].0 == target);
                    lemma_position(before, i as int);
                    lemma_put(before[i as int].1, source, link);
                }
                self.nodes[i].1.insert(source, link);
                proof {
                    assert(self@.nodes =~= linked(before, source, target, link));
                }
            },
            None => {
                let mut node = NeuralSourceGenome::new();
                node.insert(source, link);
                self.nodes.push((target, node));
                proof {
                    assert(put(Seq::<Synapse>::empty(), source, link) =~= seq![(source, link)]);
                    assert(!has_key(before, target)) by {
                        if has_key(before, target) {
                            let j = choose|j: int|
                                0 <= j < before.len() && (#[trigger] before[j]).0 == target;
                            assert(old(self).nodes@[j].0 == target);
                        }
                    }
                    assert(self@.nodes =~= linked(before, source, target, link));
                }
            },
        }
        proof {
            lemma_linked_wf(before, source, target, link);
        }
    }
}

/// Adding a synapse keeps the nodes well formed.
pub proof fn lemma_linked_wf(
    nodes: Seq<NodeView>,
    source: NeuralSource,
    target: NeuralTarget,
    link: NeuralLink,
)
    requires
        nodes_wf(nodes),
    ensures
        nodes_wf(linked(nodes, source, target, link)),
{
    let t = linked(nodes, source, target, link);
    if has_key(nodes, target) {
        lemma_position_bound(nodes, target);
        let p = position(nodes, target);
        lemma_put(nodes[p].1, source, link);
        assert forall|i: int, j: int| 0 <= i < j < t.len() implies (#[trigger] t[i]).0 != (
        #[trigger] t[j]).0 by {
            assert(nodes[i].0 != nodes[j].0);
        }
        assert forall|i: int| 0 <= i < t.len() implies keys_distinct((#[trigger] t[i]).1) by {
            if i != p {
                assert(t[i] == nodes[i]);
            }
        }
    } else {
        assert forall|i: int, j: int| 0 <= i < j < t.len() implies (#[trigger] t[i]).0 != (
        #[trigger] t[j]).0 by {
            if j < nodes.len() {
                assert(nodes[i].0 != nodes[j].0);
            } else {
                assert(nodes[i].0 != target);
            }
        }
        assert forall|i: int| 0 <= i < t.len() implies keys_distinct((#[trigger] t[i]).1) by {
            if i < nodes.len() {
                assert(t[i] == nodes[i]);
            }
        }
    }
}

impl Clone for NetGenome {
    fn clone(&self) -> (copy: Self)
        ensures
            copy@ == self@,
    {
        let mut nodes: Vec<(NeuralTarget, NeuralSourceGenome)> = Vec::new();
        let mut i: usize = 0;
        while i < self.nodes.len()
            invariant
                i <= self.nodes.len(),
                nodes.len() == i,
                node_views(nodes@) == node_views(self.nodes@).take(i as int),
            decreases self.nodes.len() - i,
        {
            let node = self.nodes[i].1.clone();
            let ghost before = nodes@;
            nodes.push((self.nodes[i].0, node));
            proof {
                assert forall|j: int| 0 <= j < i implies node_views(nodes@)[j] == node_views(
                    self.nodes@,
                ).take(i + 1)[j] by {
                    assert(nodes@[j] == before[j]);
                    assert(node_views(before)[j] == node_views(self.nodes@).take(i as int)[j]);
                }
                assert(node_views(nodes@) =~= node_views(self.nodes@).take(i + 1));
            }
            i += 1;
        }
        assert(node_views(self.nodes@).take(i as int) =~= node_views(self.nodes@));
        NetGenome { color: self.color, nodes }
    }
}

/// The group of a colour: the channel with the greatest value, the lowest
/// such channel if several share it.
pub open spec fn group_of(color: Seq<i32>) -> int
    recommends
        color.len() == 3,
{
    if color[0] >= color[1] && color[0] >= color[2] {
        0
    } else if color[1] >= color[2] {
        1
    } else {
        2
    }
}

/// The group of a colour.
pub fn color_group(color: &[i32; 3]) -> (group: usize)
    ensures
        group == group_of(color@),
        group < 3,
        forall|k: int| 0 <= k < 3 ==> color@[k] <= color@[group as int],
        forall|k: int| 0 <= k < group ==> color@[k] < color@[group as int],
{
    if color[0] >= color[1] && color[0] >= color[2] {
        0
    } else if color[1] >= color[2] {
        1
    } else {
        2
    }
}

/// One neuron at rest for every node, in the order of the nodes.
pub open spec fn resting(nodes: Seq<NodeView>) -> Seq<(NeuralTarget, Neuron)> {
    Seq::new(nodes.len(), |i: int| (nodes[i].0, Neuron { charge: 0 }))
}

/// The slots in `acc` and, after them, a slot at zero for every sensor that
/// the synapses read and that had none, in the order of first reading.
pub open spec fn slots_of_inputs(acc: Seq<(Sensor, i32)>, inputs: Seq<Synapse>) -> Seq<
    (Sensor, i32),
>
    decreases inputs.len(),
{
    if inputs.len() == 0 {
        acc
    } else {
        let before = slots_of_inputs(acc, inputs.drop_last());
        match inputs.last().0 {
            NeuralSource::Sensor(s) => if has_key(before, s) {
                before
            } else {
                before.push((s, 0i32))
            },
            NeuralSource::Hidden(_) => before,
        }
    }
}

/// One slot at zero for every sensor that some synapse of the nodes reads,
/// in the order of first reading.
pub open spec fn slots_of_nodes(nodes: Seq<NodeView>) -> Seq<(Sensor, i32)>
    decreases nodes.len(),
{
    if nodes.len() == 0 {
        Seq::empty()
    } else {
        slots_of_inputs(slots_of_nodes(nodes.drop_last()), nodes.last().1)
    }
}

/// The neurons of a live network, one for each node.
#[derive(Debug)]
pub struct NetNodes {
    pub neurons: Vec<(NeuralTarget, Neuron)>,
}

impl View for NetNodes {
    type V = Seq<(NeuralTarget, Neuron)>;

    open spec fn view(&self) -> Seq<(NeuralTarget, Neuron)> {
        self.neurons@
    }
}

impl NetNodes {
    /// No neurons.
    pub fn new() -> (nodes: NetNodes)
        ensures
            nodes@ == Seq::<(NeuralTarget, Neuron)>::empty(),
    {
        NetNodes { neurons: Vec::new() }
    }

    /// Makes sure that `target` has a neuron: a neuron at rest is added at
    /// the end if it has none.
    pub fn create_link_node(&mut self, target: &NeuralTarget)
        ensures
            final(self)@ == if has_key(old(self)@, *target) {
                old(self)@
            } else {
                old(self)@.push((*target, Neuron { charge: 0 }))
            },
    {
        match find(&self.neurons, target) {
            Some(_) => {},
            None => {
                self.neurons.push((*target, Neuron::new()));
            },
        }
    }
}

/// A live network as a value.
pub struct NetView {
    pub genome: NetGenomeView,
    pub neurons: Seq<(NeuralTarget, Neuron)>,
    pub sensors: Seq<(Sensor, i32)>,
}

/// A live network: the genome it was built from, one neuron for each node
/// and one value slot for each sensor that a synapse reads.
#[derive(Debug)]
pub struct Net {
    pub genome: NetGenome,
    pub nodes: NetNodes,
    pub sensors: Vec<(Sensor, i32)>,
}

impl View for Net {
    type V = NetView;

    open spec fn view(&self) -> NetView {
        NetView { genome: self.genome@, neurons: self.nodes@, sensors: self.sensors@ }
    }
}

/// The live network that a genome gives: every neuron at rest, every slot
/// at zero.
pub open spec fn grown(genome: NetGenomeView) -> NetView {
    NetView {
        genome,
        neurons: resting(genome.nodes),
        sensors: slots_of_nodes(genome.nodes),
    }
}

/// The genome of a live network.
pub open spec fn genome_of(net: NetView) -> NetGenomeView {
    net.genome
}

/// A genome grown into a network and read back is the same genome: colour,
/// nodes and synapses.
pub proof fn lemma_genome_round_trip(genome: NetGenomeView)
    ensures
        genome_of(grown(genome)) == genome,
        genome_of(grown(genome)).color == genome.color,
        genome_of(grown(genome)).nodes == genome.nodes,
{
}

/// The runtime state fits the genome: the neurons stand for the nodes, in
/// their order, with charges within the limit, and the slots are those of
/// the sensors that the synapses read.
pub open spec fn net_wf(net: NetView) -> bool {
    &&& nodes_wf(net.genome.nodes)
    &&& color_wf(net.genome.color)
    &&& net.neurons.len() == net.genome.nodes.len()
    &&& forall|i: int|
        0 <= i < net.neurons.len() ==> (#[trigger] net.neurons[i]).0 == net.genome.nodes[i].0
            && net.neurons[i].1.wf()
    &&& net.sensors.len() == slots_of_nodes(net.genome.nodes).len()
    &&& forall|k: int|
        0 <= k < net.sensors.len() ==> (#[trigger] net.sensors[k]).0 == slots_of_nodes(
            net.genome.nodes,
        )[k].0
}

/// A grown network is well formed.
pub proof fn lemma_grown_wf(genome: NetGenomeView)
    requires
        nodes_wf(genome.nodes),
        color_wf(genome.color),
    ensures
        net_wf(grown(genome)),
{
}

impl Net {
    /// The runtime state fits the genome.
    pub open spec fn wf(&self) -> bool {
        net_wf(self@)
    }

    /// The group of the network: that of its colour.
    pub fn pool(&self) -> (group: usize)
        ensures
            group == group_of(self@.genome.color),
            group < 3,
    {
        color_group(&self.genome.color)
    }

    /// Rebuilds the runtime state from the genome: a neuron at rest for each
    /// node and a slot at zero for each sensor read.
    pub fn update_nodes(&mut self)
        requires
            old(self).genome.wf(),
        ensures
            final(self)@ == grown(old(self)@.genome),
            final(self).wf(),
    {
        let ghost nodes = self@.genome.nodes;
        let mut neurons = NetNodes::new();
        let mut i: usize = 0;
        while i < self.genome.nodes.len()
            invariant
                i <= self.genome.nodes.len(),
                nodes == node_views(self.genome.nodes@),
                nodes_wf(nodes),
                neurons@ == resting(nodes.take(i as int)),
            decreases self.genome.nodes.len() - i,
        {
            let target = self.genome.nodes[i].0;
            proof {
                assert(nodes[i as int].0 == target);
                if has_key(neurons@, target) {
                    let j = choose|j: int|
                        0 <= j < neurons@.len() && (#[trigger] neurons@[j]).0 == target;
                    assert(nodes[j].0 != nodes[i as int].0);
                }
            }
            neurons.create_link_node(&target);
            assert(neurons@ =~= resting(nodes.take(i + 1)));
            i += 1;
        }
        let sensors = self.genome.slots();
        proof {
            assert(nodes.take(i as int) =~= nodes);
            lemma_grown_wf(self@.genome);
        }
        self.nodes = neurons;
        self.sensors = sensors;
    }
}

/// The value that a slot list holds for a sensor; zero if it holds none.
pub open spec fn value_in(slots: Seq<(Sensor, i32)>, s: Sensor) -> int {
    if has_key(slots, s) {
        slots[position(slots, s)].1 as int
    } else {
        0
    }
}

/// The network with its slots filled from `input`: each slot takes the
/// value that `input` holds for its sensor.
pub open spec fn sensed(net: NetView, input: Seq<(Sensor, i32)>) -> NetView {
    NetView {
        genome: net.genome,
        neurons: net.neurons,
        sensors: Seq::new(
            net.sensors.len(),
            |k: int| (net.sensors[k].0, value_in(input, net.sensors[k].0) as i32),
        ),
    }
}

/// The signal that a synapse reads from `source`: the slot of a sensor, or
/// the output of a hidden neuron as its charge stands. A source without
/// slot or neuron is silent.
pub open spec fn signal(net: NetView, source: NeuralSource) -> int {
    match source {
        NeuralSource::Sensor(s) => value_in(net.sensors, s),
        NeuralSource::Hidden(h) => if has_key(net.neurons, NeuralTarget::Neuron(h)) {
            tanh_milli(net.neurons[position(net.neurons, NeuralTarget::Neuron(h))].1.charge as int)
        } else {
            0
        },
    }
}

/// What the synapses pass on, summed.
pub open spec fn synapse_sum(net: NetView, inputs: Seq<Synapse>) -> int
    decreases inputs.len(),
{
    if inputs.len() == 0 {
        0
    } else {
        synapse_sum(net, inputs.drop_last()) + inputs.last().1.spec_output(
            signal(net, inputs.last().0),
        )
    }
}

/// What the synapses pass on, on average: their sum over their number, so
/// that a node with many inputs is driven no harder than one with few.
pub open spec fn drive(net: NetView, inputs: Seq<Synapse>) -> int {
    if inputs.len() == 0 {
        0
    } else {
        toward_zero(synapse_sum(net, inputs), inputs.len() as int)
    }
}

/// The charge of node `i` after one step: what the discharge leaves of the
/// old charge, plus the drive of the node's synapses.
pub open spec fn integrated(net: NetView, i: int) -> int {
    Neuron::spec_discharged(net.neurons[i].1.charge as int) + drive(net, net.genome.nodes[i].1)
}

/// Whether node `i` fires in this step: the output of its new charge
/// exceeds the threshold in magnitude.
pub open spec fn fires_at(net: NetView, i: int) -> bool {
    tanh_milli(integrated(net, i)) > FIRING_THRESHOLD || tanh_milli(integrated(net, i))
        < -FIRING_THRESHOLD
}

/// The network after one step. Every node reads the charges as they stood
/// before the step, so a hidden signal takes one step to arrive. A node that
/// fires is left without charge.
pub open spec fn ticked(net: NetView) -> NetView {
    NetView {
        genome: net.genome,
        neurons: Seq::new(
            net.neurons.len(),
            |i: int|
                (
                    net.neurons[i].0,
                    Neuron {
                        charge: if fires_at(net, i) {
                            0i32
                        } else {
                            integrated(net, i) as i32
                        },
                    },
                ),
        ),
        sensors: net.sensors,
    }
}

/// The actions of the action nodes among the first `n` nodes that fire in
/// this step, in the order of the nodes.
pub open spec fn fired_actions(net: NetView, n: int) -> Seq<Action>
    decreases n,
{
    if n <= 0 {
        Seq::empty()
    } else {
        let before = fired_actions(net, n - 1);
        match net.genome.nodes[n - 1].0 {
            NeuralTarget::Action(a) => if fires_at(net, n - 1) {
                before.push(a)
            } else {
                before
            },
            NeuralTarget::Neuron(_) => before,
        }
    }
}

/// The sum of what synapses pass on is bounded by their number.
pub proof fn lemma_synapse_sum_bound(net: NetView, inputs: Seq<Synapse>)
    ensures
        -1000 * inputs.len() <= synapse_sum(net, inputs) <= 1000 * inputs.len(),
    decreases inputs.len(),
{
    if inputs.len() > 0 {
        lemma_synapse_sum_bound(net, inputs.drop_last());
        let link = inputs.last().1;
        let x = signal(net, inputs.last().0);
        lemma_tanh_bounds(toward_zero(link.weight * (UNIT - x), UNIT as int));
        lemma_tanh_bounds(toward_zero(link.weight * x, UNIT as int));
    }
}

/// The charge of a well-formed network stays within the limit over a step.
pub proof fn lemma_integrated_bound(net: NetView, i: int)
    requires
        net_wf(net),
        0 <= i < net.neurons.len(),
    ensures
        -CHARGE_LIMIT <= integrated(net, i) <= CHARGE_LIMIT,
        -1000 <= drive(net, net.genome.nodes[i].1) <= 1000,
{
    let inputs = net.genome.nodes[i].1;
    assert(net.neurons[i].1.wf());
    if inputs.len() > 0 {
        lemma_synapse_sum_bound(net, inputs);
        lemma_mean_bound(synapse_sum(net, inputs), inputs.len() as int, 1000);
    }
}

impl Net {
    /// Fills the slots from `input`.
    pub fn sense(&mut self, input: &Vec<(Sensor, i32)>)
        requires
            old(self).wf(),
        ensures
            final(self)@ == sensed(old(self)@, input@),
            final(self).wf(),
    {
        let ghost before = self@;
        let mut k: usize = 0;
        while k < self.sensors.len()
            invariant
                k <= self.sensors.len(),
                self.sensors.len() == before.sensors.len(),
                self.genome == old(self).genome,
                self.nodes == old(self).nodes,
                before == old(self)@,
                forall|j: int|
                    0 <= j < k ==> #[trigger] self.sensors[j] == sensed(before, input@).sensors[j],
                forall|j: int|
                    k <= j < self.sensors.len() ==> #[trigger] self.sensors[j] == before.sensors[j],
            decreases self.sensors.len() - k,
        {
            let s = self.sensors[k].0;
            let v: i32 = match find(input, &s) {
                Some(p) => input[p].1,
                None => 0,
            };
            self.sensors[k] = (s, v);
            k += 1;
        }
        assert(self@.sensors =~= sensed(before, input@).sensors);
    }

    /// The signal that a synapse reads from `source`.
    fn signal(&self, source: &NeuralSource) -> (x: i32)
        ensures
            x == signal(self@, *source),
    {
        match source {
            NeuralSource::Sensor(s) => match find(&self.sensors, s) {
                Some(p) => self.sensors[p].1,
                None => 0,
            },
            NeuralSource::Hidden(h) => match find(&self.nodes.neurons, &NeuralTarget::Neuron(*h)) {
                Some(p) => self.nodes.neurons[p].1.output(),
                None => 0,
            },
        }
    }

    /// The drive of node `i`.
    fn drive(&self, i: usize) -> (d: i32)
        requires
            i < self.genome.nodes.len(),
        ensures
            d == drive(self@, self@.genome.nodes[i as int].1),
            -1000 <= d <= 1000,
    {
        let ghost net = self@;
        let ghost inputs = net.genome.nodes[i as int].1;
        let n: usize = self.genome.nodes[i].1.inputs.len();
        if n == 0 {
            return 0;
        }
        let mut sum: i128 = 0;
        let mut j: usize = 0;
        while j < n
            invariant
                i < self.genome.nodes.len(),
                net == self@,
                inputs == net.genome.nodes[i as int].1,
                n == inputs.len(),
                j <= n,
                sum == synapse_sum(net, inputs.take(j as int)),
                -1000 * j <= sum <= 1000 * j,
            decreases n - j,
        {
            let source = self.genome.nodes[i].1.inputs[j].0;
            let link = self.genome.nodes[i].1.inputs[j].1;
            let x = self.signal(&source);
            let y = link.output(x);
            proof {
                assert(inputs.take(j + 1).drop_last() =~= inputs.take(j as int));
                assert(inputs.take(j + 1).last() == inputs[j as int]);
            }
            sum = sum + y as i128;
            j += 1;
        }
        proof {
            assert(inputs.take(n as int) =~= inputs);
            lemma_mean_bound(sum as int, n as int, 1000);
        }
        let mean: i128 = div_toward_zero(sum, n as i128);
        mean as i32
    }

    /// Runs the network for one step on the sensor values in `input` and
    /// returns the actions that fire, in the order of the nodes.
    ///
    /// Only an action node whose new output exceeds the firing threshold
    /// puts its action on the list.
    pub fn tick(&mut self, input: &Vec<(Sensor, i32)>) -> (actions: Vec<Action>)
        requires
            old(self).wf(),
        ensures
            final(self)@ == ticked(sensed(old(self)@, input@)),
            actions@ == fired_actions(
                sensed(old(self)@, input@),
                old(self)@.neurons.len() as int,
            ),
            final(self).wf(),
            forall|a: Action| #[trigger]
                actions@.contains(a) ==> exists|i: int|
                    0 <= i < old(self)@.genome.nodes.len() && (
                    #[trigger] old(self)@.genome.nodes[i]).0 == NeuralTarget::Action(a)
                        && fires_at(sensed(old(self)@, input@), i),
            forall|p: int, q: int| 0 <= p < q < actions@.len() ==> actions@[p] != actions@[q],
            actions@.len() <= 4,
    {
        self.sense(input);
        let ghost net = self@;
        let mut next: Vec<(NeuralTarget, Neuron)> = Vec::new();
        let mut actions: Vec<Action> = Vec::new();
        let mut i: usize = 0;
        while i < self.nodes.neurons.len()
            invariant
                net == self@,
                net_wf(net),
                i <= net.neurons.len(),
                next.len() == i,
                forall|k: int| 0 <= k < i ==> #[trigger] next[k] == ticked(net).neurons[k],
                actions@ == fired_actions(net, i as int),
                forall|a: Action| #[trigger]
                    actions@.contains(a) ==> exists|k: int|
                        0 <= k < i && (#[trigger] net.genome.nodes[k]).0 == NeuralTarget::Action(
                            a,
                        ) && fires_at(net, k),
                forall|p: int, q: int| 0 <= p < q < actions.len() ==> actions@[p] != actions@[q],
            decreases net.neurons.len() - i,
        {
            let target = self.nodes.neurons[i].0;
            let mut neuron = self.nodes.neurons[i].1;
            proof {
                lemma_integrated_bound(net, i as int);
                assert(net.neurons[i as int].1.wf());
            }
            neuron.discharge();
            let d = self.drive(i);
            neuron.charge = neuron.charge + d;
            let fired = neuron.fires();
            next.push((target, neuron));
            let ghost listed = actions@;
            if fired {
                match target {
                    NeuralTarget::Action(a) => {
                        actions.push(a);
                    },
                    NeuralTarget::Neuron(_) => {},
                }
            }
            proof {
                assert(net.genome.nodes[i as int].0 == target);
                assert forall|p: int, q: int| 0 <= p < q < actions.len() implies actions@[p]
                    != actions@[q] by {
                    if q >= listed.len() {
                        assert(listed[p] == actions@[p]);
                        if actions@[p] == actions@[q] {
                            assert(listed.contains(actions@[p]));
                            let k = choose|k: int|
                                0 <= k < i && (#[trigger] net.genome.nodes[k]).0
                                    == NeuralTarget::Action(actions@[p]) && fires_at(net, k);
                            assert(net.genome.nodes[k].0 != net.genome.nodes[i as int].0);
                        }
                    } else {
                        assert(listed[p] != listed[q]);
                    }
                }
                assert forall|a: Action| #[trigger] actions@.contains(a) implies exists|k: int|
                    0 <= k < i + 1 && (#[trigger] net.genome.nodes[k]).0 == NeuralTarget::Action(a)
                        && fires_at(net, k) by {
                    if listed.contains(a) {
                    } else {
                        let p = choose|p: int| 0 <= p < actions@.len() && actions@[p] == a;
                        if p < listed.len() {
                            assert(listed[p] == a);
                        }
                        assert(net.genome.nodes[i as int].0 == NeuralTarget::Action(a));
                    }
                }
            }
            i += 1;
        }
        self.nodes.neurons = next;
        proof {
            assert(self@.neurons =~= ticked(net).neurons);
            lemma_at_most_four(actions@);
        }
        actions
    }
}


impl NetGenome {
    /// One slot at zero for every sensor that some synapse reads, in the
    /// order of first reading.
    pub fn slots(&self) -> (sensors: Vec<(Sensor, i32)>)
        ensures
            sensors@ == slots_of_nodes(self@.nodes),
    {
        let ghost nodes = self@.nodes;
        let mut sensors: Vec<(Sensor, i32)> = Vec::new();
        let mut i: usize = 0;
        while i < self.nodes.len()
            invariant
                i <= self.nodes.len(),
                nodes == node_views(self.nodes@),
                sensors@ == slots_of_nodes(nodes.take(i as int)),
            decreases self.nodes.len() - i,
        {
            let ghost inputs = nodes[i as int].1;
            let ghost start = sensors@;
            let mut j: usize = 0;
            while j < self.nodes[i].1.inputs.len()
                invariant
                    i < self.nodes.len(),
                    nodes == node_views(self.nodes@),
                    inputs == nodes[i as int].1,
                    j <= inputs.len(),
                    sensors@ == slots_of_inputs(start, inputs.take(j as int)),
                decreases inputs.len() - j,
            {
                let source = self.nodes[i].1.inputs[j].0;
                proof {
                    assert(inputs.take(j + 1).drop_last() =~= inputs.take(j as int));
                    assert(inputs.take(j + 1).last() == inputs[j as int]);
                }
                match source {
                    NeuralSource::Sensor(s) => {
                        match find(&sensors, &s) {
                            Some(_) => {
                                assert(has_key(sensors@, s));
                            },
                            None => {
                                sensors.push((s, 0));
                            },
                        }
                    },
                    NeuralSource::Hidden(_) => {},
                }
                j += 1;
            }
            proof {
                assert(inputs.take(j as int) =~= inputs);
                assert(nodes.take(i + 1).drop_last() =~= nodes.take(i as int));
                assert(nodes.take(i + 1).last() == nodes[i as int]);
            }
            i += 1;
        }
        proof {
            assert(nodes.take(i as int) =~= nodes);
        }
        sensors
    }
}

} // verus!
