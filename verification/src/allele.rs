//! The node of a network as an allele: its identity, derived from its
//! synapses, and the hidden nodes that it reads.

use crate::assoc::distinct;
use crate::input::NeighbourType;
use crate::input::Sensor;
use crate::net::NeuralLink;
use crate::net::NeuralSource;
use crate::net::NeuralSourceGenome;
use crate::net::NeuralTarget;
use crate::net::Synapse;
use crate::pool::Allele;
use crate::pool::AlleleID;
use vstd::prelude::*;

verus! {

/// The multiplier of the digest.
pub const DIGEST_PRIME: u64 = 0x0000_0100_0000_01b3;

/// The start value of the digest.
pub const DIGEST_BASIS: u64 = 0xcbf2_9ce4_8422_2325;

/// One step of the digest: the word is added and the sum multiplied, both
/// on 64 bits.
#[verifier::opaque]
pub open spec fn digest_step(h: u64, word: u64) -> u64 {
    ((((h + word) % 0x1_0000_0000_0000_0000) * DIGEST_PRIME) % 0x1_0000_0000_0000_0000) as u64
}

/// The number that stands for a kind of neighbour.
pub open spec fn kind_word(kind: NeighbourType) -> u64 {
    match kind {
        NeighbourType::Any => 0,
        NeighbourType::Empty => 1,
        NeighbourType::Friend => 2,
        NeighbourType::Enemy => 3,
        NeighbourType::Pool(p) => ((4 + p) % 0x1_0000_0000_0000_0000) as u64,
    }
}

/// The two numbers that stand for a source: its sort and what tells it from
/// others of its sort.
pub open spec fn source_words(source: NeuralSource) -> (u64, u64) {
    match source {
        NeuralSource::Hidden(h) => (0u64, h as u64),
        NeuralSource::Sensor(Sensor::Osc(pace)) => (1u64, pace as u64),
        NeuralSource::Sensor(Sensor::Loc { x }) => (2u64, if x { 1u64 } else { 0u64 }),
        NeuralSource::Sensor(Sensor::Neighbour { vert, incr, kind }) => (
            3u64,
            digest_step(
                digest_step(if vert { 1u64 } else { 0u64 }, if incr { 1u64 } else { 0u64 }),
                kind_word(kind),
            ),
        ),
        NeuralSource::Sensor(Sensor::Bias(b)) => (4u64, (b + 128) as u64),
        NeuralSource::Sensor(Sensor::Random) => (5u64, 0u64),
        NeuralSource::Sensor(Sensor::Null) => (6u64, 0u64),
        NeuralSource::Sensor(Sensor::Alive) => (7u64, 0u64),
        NeuralSource::Sensor(Sensor::Dead) => (8u64, 0u64),
    }
}

/// The digest of one synapse: of its source, its inversion and its weight
/// in thousandths.
pub open spec fn synapse_digest(synapse: Synapse) -> u64 {
    let words = source_words(synapse.0);
    let h0 = digest_step(DIGEST_BASIS, words.0);
    let h1 = digest_step(h0, words.1);
    let h2 = digest_step(h1, if synapse.1.inverse { 1u64 } else { 0u64 });
    digest_step(h2, (synapse.1.weight + 0x8000_0000) as u64)
}

/// The digests of the synapses, summed on 64 bits.
pub open spec fn digest_sum(inputs: Seq<Synapse>) -> u64
    decreases inputs.len(),
{
    if inputs.len() == 0 {
        0
    } else {
        ((digest_sum(inputs.drop_last()) + synapse_digest(inputs.last())) % 0x1_0000_0000_0000_0000) as u64
    }
}

/// The nodes of the hidden neurons that the synapses read, in their order.
pub open spec fn required_genes(inputs: Seq<Synapse>) -> Seq<NeuralTarget>
    decreases inputs.len(),
{
    if inputs.len() == 0 {
        Seq::empty()
    } else {
        match inputs.last().0 {
            NeuralSource::Hidden(h) => required_genes(inputs.drop_last()).push(
                NeuralTarget::Neuron(h),
            ),
            NeuralSource::Sensor(_) => required_genes(inputs.drop_last()),
        }
    }
}

/// One step of the digest.
fn step(h: u64, word: u64) -> (d: u64)
    ensures
        d == digest_step(h, word),
{
    reveal(digest_step);
    let sum: u64 = h.wrapping_add(word);
    let product: u128 = (sum as u128) * (DIGEST_PRIME as u128);
    (product % 0x1_0000_0000_0000_0000) as u64
}

/// The two numbers that stand for a source.
fn words_of(source: &NeuralSource) -> (w: (u64, u64))
    ensures
        w == source_words(*source),
{
    match source {
        NeuralSource::Hidden(h) => (0, *h as u64),
        NeuralSource::Sensor(Sensor::Osc(pace)) => (1, *pace as u64),
        NeuralSource::Sensor(Sensor::Loc { x }) => (2, if *x { 1 } else { 0 }),
        NeuralSource::Sensor(Sensor::Neighbour { vert, incr, kind }) => {
            let k: u64 = match kind {
                NeighbourType::Any => 0,
                NeighbourType::Empty => 1,
                NeighbourType::Friend => 2,
                NeighbourType::Enemy => 3,
                NeighbourType::Pool(p) => (*p as u64).wrapping_add(4),
            };
            (3, step(step(if *vert { 1 } else { 0 }, if *incr { 1 } else { 0 }), k))
        },
        NeuralSource::Sensor(Sensor::Bias(b)) => (4, (*b as i64 + 128) as u64),
        NeuralSource::Sensor(Sensor::Random) => (5, 0),
        NeuralSource::Sensor(Sensor::Null) => (6, 0),
        NeuralSource::Sensor(Sensor::Alive) => (7, 0),
        NeuralSource::Sensor(Sensor::Dead) => (8, 0),
    }
}

/// The digest of one synapse.
fn digest(source: &NeuralSource, link: &NeuralLink) -> (d: u64)
    ensures
        d == synapse_digest((*source, *link)),
{
    let words = words_of(source);
    let h0 = step(DIGEST_BASIS, words.0);
    let h1 = step(h0, words.1);
    let h2 = step(h1, if link.inverse { 1 } else { 0 });
    step(h2, (link.weight as i64 + 0x8000_0000) as u64)
}

impl Allele<NeuralTarget> for NeuralSourceGenome {
    open spec fn valid(&self) -> bool {
        self.wf()
    }

    open spec fn allele_id(&self) -> AlleleID {
        digest_sum(self@)
    }

    open spec fn gene_requirements(&self) -> Seq<NeuralTarget> {
        required_genes(self@)
    }

    /// The identity of the node: the sum of the digests of its synapses.
    fn get_allele_id(&self) -> (id: AlleleID) {
        let mut id: u64 = 0;
        let mut i: usize = 0;
        while i < self.inputs.len()
            invariant
                i <= self.inputs.len(),
                id == digest_sum(self@.take(i as int)),
            decreases self.inputs.len() - i,
        {
            proof {
                assert(self@.take(i + 1).drop_last() =~= self@.take(i as int));
                assert(self@.take(i + 1).last() == self@[i as int]);
            }
            let d = digest(&self.inputs[i].0, &self.inputs[i].1);
            assert(self@[i as int] == (self.inputs[i as int].0, self.inputs[i as int].1));
            id = id.wrapping_add(d);
            i += 1;
        }
        assert(self@.take(i as int) =~= self@);
        id
    }

    /// Whether no source feeds the node twice.
    fn check(&self) -> (ok: bool) {
        distinct(&self.inputs)
    }

    /// The nodes of the hidden neurons that the node reads.
    fn get_gene_requirements(&self) -> (genes: Vec<NeuralTarget>) {
        let mut genes: Vec<NeuralTarget> = Vec::new();
        let mut i: usize = 0;
        while i < self.inputs.len()
            invariant
                i <= self.inputs.len(),
                genes@ == required_genes(self@.take(i as int)),
            decreases self.inputs.len() - i,
        {
            proof {
                assert(self@.take(i + 1).drop_last() =~= self@.take(i as int));
                assert(self@.take(i + 1).last() == self@[i as int]);
            }
            match self.inputs[i].0 {
                NeuralSource::Hidden(h) => {
                    genes.push(NeuralTarget::Neuron(h));
                },
                NeuralSource::Sensor(_) => {},
            }
            i += 1;
        }
        assert(self@.take(i as int) =~= self@);
        genes
    }
}


/// Two sums on 64 bits that add the same two terms in either order agree.
proof fn lemma_wrapped_sum(a: int, x: int, y: int)
    requires
        0 <= a,
        0 <= x < 0x1_0000_0000_0000_0000,
        0 <= y < 0x1_0000_0000_0000_0000,
    ensures
        ((a + x) % 0x1_0000_0000_0000_0000 + y) % 0x1_0000_0000_0000_0000 == ((a + y)
            % 0x1_0000_0000_0000_0000 + x) % 0x1_0000_0000_0000_0000,
{
    let m = 0x1_0000_0000_0000_0000int;
    vstd::arithmetic::div_mod::lemma_add_mod_noop(a + x, y, m);
    vstd::arithmetic::div_mod::lemma_add_mod_noop(a + y, x, m);
    vstd::arithmetic::div_mod::lemma_small_mod(x as nat, m as nat);
    vstd::arithmetic::div_mod::lemma_small_mod(y as nat, m as nat);
}

/// The sum of the digests is the sum without one synapse, plus the digest
/// of that synapse.
proof fn lemma_digest_sum_remove(inputs: Seq<Synapse>, i: int)
    requires
        0 <= i < inputs.len(),
    ensures
        digest_sum(inputs) == ((digest_sum(inputs.remove(i)) + synapse_digest(inputs[i]))
            % 0x1_0000_0000_0000_0000) as u64,
    decreases inputs.len(),
{
    if i == inputs.len() - 1 {
        assert(inputs.remove(i) =~= inputs.drop_last());
    } else {
        let rest = inputs.drop_last();
        lemma_digest_sum_remove(rest, i);
        assert(inputs.remove(i).drop_last() =~= rest.remove(i));
        assert(inputs.remove(i).last() == inputs.last());
        assert(rest[i] == inputs[i]);
        lemma_wrapped_sum(
            digest_sum(rest.remove(i)) as int,
            synapse_digest(inputs[i]) as int,
            synapse_digest(inputs.last()) as int,
        );
    }
}

/// The identity of a node does not depend on the order of its synapses: two
/// lists that hold the same synapses, each as often, have the same sum of
/// digests.
pub proof fn lemma_identity_ignores_order(a: Seq<Synapse>, b: Seq<Synapse>)
    requires
        a.to_multiset() == b.to_multiset(),
    ensures
        digest_sum(a) == digest_sum(b),
    decreases a.len(),
{
    vstd::seq_lib::to_multiset_len(a);
    vstd::seq_lib::to_multiset_len(b);
    if a.len() > 0 {
        let x = a.last();
        assert(a[a.len() - 1] == x);
        assert(a.contains(x));
        vstd::seq_lib::to_multiset_contains(a, x);
        vstd::seq_lib::to_multiset_contains(b, x);
        let i = choose|i: int| 0 <= i < b.len() && b[i] == x;
        vstd::seq_lib::to_multiset_remove(a, a.len() - 1);
        vstd::seq_lib::to_multiset_remove(b, i);
        assert(a.remove(a.len() - 1) =~= a.drop_last());
        lemma_identity_ignores_order(a.drop_last(), b.remove(i));
        lemma_digest_sum_remove(b, i);
    }
}

} // verus!
