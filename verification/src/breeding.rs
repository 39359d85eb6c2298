//! Breeding the next generation from the pools of the groups.

use crate::actions::Action;
use crate::allele::required_genes;
use crate::assoc::has_key;
use crate::assoc::keys_distinct;
use crate::assoc::lemma_position_bound;
use crate::assoc::position;
use crate::genome::HasGenome;
use crate::mutation::Edited;
use crate::mutation::lemma_randomized_seed;
use crate::mutation::randomized;
use crate::net::grown;
use crate::net::NetGenome;
use crate::net::NetGenomeView;
use crate::net::NeuralSourceGenome;
use crate::net::NeuralTarget;
use crate::net::nodes_wf;
use crate::net::NodeView;
use crate::pool::Allele;
use crate::pool::best_allele;
use crate::pool::built;
use crate::pool::needs;
use crate::pool::owned;
use crate::pool::PoolView;
use crate::pool::resolvable;
use crate::pool::Table;
use crate::replicant::Replicant;
use crate::rng::RandomSource;
use crate::scoring::Pool;
use crate::server::BATCH;
use crate::server::GROUPS;
use crate::server::Server;
use vstd::prelude::*;

verus! {

/// How many children a group gets: a third of the population, and one more
/// for the first groups if the population does not divide by three.
pub open spec fn quota(pop_size: usize, g: int) -> int {
    pop_size / 3 + if g < pop_size % 3 {
        1int
    } else {
        0int
    }
}

/// The group of the child at place `i` of a new generation: the children
/// of the first group come first, then those of the second, then those of
/// the third.
pub open spec fn child_group(pop_size: usize, i: int) -> int {
    if i < quota(pop_size, 0) {
        0
    } else if i < quota(pop_size, 0) + quota(pop_size, 1) {
        1
    } else {
        2
    }
}

/// Of a thousand children of a group, those whose draw reaches this are
/// mutated: the groups that come later mutate less.
pub open spec fn mutation_threshold(g: int) -> u32 {
    if g == 0 {
        990
    } else if g == 1 {
        995
    } else {
        999
    }
}

/// The colour that marks the children of a group: one in the channel of
/// the group, nothing in the others.
pub open spec fn group_color(g: int) -> Seq<i32> {
    Seq::new(3, |k: int| if k == g { 1000i32 } else { 0i32 })
}

/// The nodes are what the pool gives for the action genes: every node
/// fills its gene with the best recorded node, every action gene that the
/// pool can fill is there, so is every hidden node that a node reads and that
/// the pool can fill, and every hidden node is read by a node before it.
pub open spec fn rebuilt(
    pool: PoolView<NeuralTarget, NeuralSourceGenome>,
    nodes: Seq<NodeView>,
) -> bool {
    &&& nodes_wf(nodes)
    &&& forall|k: int|
        0 <= k < nodes.len() ==> resolvable(pool, (#[trigger] nodes[k]).0)
            && nodes[k].1 == best_allele(pool, nodes[k].0)@
    &&& forall|a: Action|
        #[trigger] resolvable(pool, NeuralTarget::Action(a)) ==> has_key(
            nodes,
            NeuralTarget::Action(a),
        )
    &&& forall|k: int, q: int|
        0 <= k < nodes.len() && 0 <= q < required_genes(nodes[k].1).len()
            && resolvable(
            pool,
            #[trigger] required_genes(nodes[k].1)[q],
        ) ==> has_key(nodes, required_genes(nodes[k].1)[q])
    &&& forall|k: int|
        0 <= k < nodes.len() ==> (#[trigger] nodes[k]).0 is Action || exists|j: int|
            0 <= j < k && #[trigger] required_genes(nodes[j].1).contains(nodes[k].0)
}

/// What a batch has made of a genome after `k` children: before each child
/// a draw decides whether the genome is mutated, and a mutation stays for
/// the children that follow.
pub open spec fn bred(nodes: Seq<NodeView>, rng: RandomSource, threshold: u32, k: int)
    -> Edited
    decreases k,
{
    if k <= 0 {
        Edited { nodes, rng, done: false }
    } else {
        let before = bred(nodes, rng, threshold, k - 1);
        if before.rng.peek(0) % 1000 >= threshold {
            randomized(before.nodes, before.rng.skip(1))
        } else {
            Edited { nodes: before.nodes, rng: before.rng.skip(1), done: false }
        }
    }
}

/// The shares of the three groups add up to the population.
pub proof fn lemma_quota(pop_size: usize)
    ensures
        quota(pop_size, 0) + quota(pop_size, 1) + quota(pop_size, 2) == pop_size,
        quota(pop_size, 0) >= 0,
        quota(pop_size, 1) >= 0,
        quota(pop_size, 2) >= 0,
{
}

/// The share of a group.
fn share(pop_size: usize, g: usize) -> (q: usize)
    requires
        g < GROUPS,
    ensures
        q == quota(pop_size, g as int),
{
    let third: usize = pop_size / 3;
    if g < pop_size % 3 {
        third + 1
    } else {
        third
    }
}

/// The action genes among the first `n` genes of a pool, in their order.
pub open spec fn action_genes(pool: PoolView<NeuralTarget, NeuralSourceGenome>, n: int) -> Seq<
    NeuralTarget,
>
    decreases n,
{
    if n <= 0 {
        Seq::empty()
    } else {
        match pool[n - 1].0 {
            NeuralTarget::Action(_) => action_genes(pool, n - 1).push(pool[n - 1].0),
            NeuralTarget::Neuron(_) => action_genes(pool, n - 1),
        }
    }
}

/// The nodes that a pool gives for its action genes.
pub open spec fn assembled(pool: PoolView<NeuralTarget, NeuralSourceGenome>) -> Seq<NodeView> {
    built(pool, action_genes(pool, pool.len() as int)).map_values(
        |e: (NeuralTarget, NeuralSourceGenome)| (e.0, e.1@),
    )
}

/// The genome that a pool gives for the action genes, in the colour of
/// group `g`.
pub fn assemble(pool: &Pool, g: usize) -> (genome: NetGenome)
    requires
        pool.wf(),
        g < GROUPS,
    ensures
        genome.wf(),
        genome@.color == group_color(g as int),
        genome@.nodes == assembled(pool@),
        rebuilt(pool@, genome@.nodes),
{
    let known = pool.get_genes();
    let mut wanted: Vec<NeuralTarget> = Vec::new();
    let mut i: usize = 0;
    while i < known.len()
        invariant
            i <= known.len(),
            known@ == pool@.map_values(|e: (NeuralTarget, Table<NeuralSourceGenome>)| e.0),
            forall|k: int| 0 <= k < wanted.len() ==> (#[trigger] wanted@[k]) is Action,
            forall|k: int|
                0 <= k < i && (#[trigger] known@[k]) is Action ==> wanted@.contains(known@[k]),
            wanted@ == action_genes(pool@, i as int),
        decreases known.len() - i,
    {
        let ghost listed = wanted@;
        assert(known@[i as int] == pool@[i as int].0);
        match known[i] {
            NeuralTarget::Action(_) => {
                wanted.push(known[i]);
                proof {
                    assert(wanted@[wanted.len() - 1] == known@[i as int]);
                    assert forall|k: int|
                        0 <= k < i + 1 && (#[trigger] known@[k]) is Action implies wanted@.contains(
                        known@[k],
                    ) by {
                        if k < i {
                            let p = choose|p: int| 0 <= p < listed.len() && listed[p] == known@[k];
                            assert(wanted@[p] == known@[k]);
                        }
                    }
                }
            },
            NeuralTarget::Neuron(_) => {},
        }
        i += 1;
    }
    let built = pool.build(&wanted);
    let mut genome = NetGenome::new();
    let mut color: [i32; 3] = [0, 0, 0];
    color[g] = 1000;
    genome.color = color;
    assert(genome@.color =~= group_color(g as int));
    let mut k: usize = 0;
    while k < built.len()
        invariant
            k <= built.len(),
            genome@.color == group_color(g as int),
            genome.nodes.len() == k,
            keys_distinct(built@),
            forall|j: int| 0 <= j < built.len() ==> (#[trigger] built@[j]).1.valid(),
            forall|j: int|
                0 <= j < k ==> #[trigger] genome@.nodes[j] == (built@[j].0, built@[j].1@),
        decreases built.len() - k,
    {
        let node = NeuralSourceGenome::clone(built[k].1);
        let ghost before = genome@.nodes;
        genome.nodes.push((built[k].0, node));
        proof {
            assert forall|j: int| 0 <= j < k + 1 implies #[trigger] genome@.nodes[j] == (
                built@[j].0,
                built@[j].1@,
            ) by {
                if j < k {
                    assert(genome@.nodes[j] == before[j]);
                }
            }
        }
        k += 1;
    }
    proof {
        let nodes = genome@.nodes;
        let p = pool@;
        let given = owned(built@);
        assert forall|j: int| 0 <= j < nodes.len() implies nodes[j] == #[trigger] assembled(p)[j] by {
            assert(given[j] == (built@[j].0, *built@[j].1));
        }
        assert(nodes =~= assembled(p));
        assert forall|a: int, b: int| 0 <= a < b < nodes.len() implies (#[trigger] nodes[a]).0 != (
        #[trigger] nodes[b]).0 by {
            assert(built@[a].0 != built@[b].0);
        }
        assert forall|j: int| 0 <= j < nodes.len() implies keys_distinct(
            (#[trigger] nodes[j]).1,
        ) by {
            assert(built@[j].1.valid());
        }
        assert forall|j: int| 0 <= j < nodes.len() implies resolvable(
            p,
            (#[trigger] nodes[j]).0,
        ) && nodes[j].1 == best_allele(p, nodes[j].0)@ by {
            assert(resolvable(p, built@[j].0));
        }
        assert forall|gene: NeuralTarget| has_key(built@, gene) implies has_key(nodes, gene) by {
            let j = choose|j: int| 0 <= j < built@.len() && (#[trigger] built@[j]).0 == gene;
            assert(nodes[j].0 == gene);
        }
        assert forall|a: Action|
            #[trigger] resolvable(p, NeuralTarget::Action(a)) implies has_key(
            nodes,
            NeuralTarget::Action(a),
        ) by {
            let gene = NeuralTarget::Action(a);
            assert(has_key(p, gene));
            lemma_position_bound(p, gene);
            let at = position(p, gene);
            assert(known@[at] == gene);
            assert(wanted@.contains(gene));
            let w = choose|w: int| 0 <= w < wanted@.len() && wanted@[w] == gene;
            assert(resolvable(p, wanted@[w]));
            assert(has_key(built@, wanted@[w]));
        }
        assert forall|j: int, q: int|
            0 <= j < nodes.len() && 0 <= q < required_genes(nodes[j].1).len()
                && resolvable(
                p,
                #[trigger] required_genes(nodes[j].1)[q],
            ) implies has_key(nodes, required_genes(nodes[j].1)[q]) by {
            assert(required_genes(nodes[j].1) == built@[j].1.gene_requirements());
            assert(has_key(built@, built@[j].1.gene_requirements()[q]));
        }
        assert forall|j: int| 0 <= j < nodes.len() implies (#[trigger] nodes[j]).0 is Action
            || exists|i: int|
            0 <= i < j && #[trigger] required_genes(nodes[i].1).contains(
                nodes[j].0,
            ) by {
            if wanted@.contains(built@[j].0) {
                let w = choose|w: int| 0 <= w < wanted@.len() && wanted@[w] == built@[j].0;
                assert(wanted@[w] is Action);
            } else {
                let i = choose|i: int|
                    0 <= i < j && #[trigger] needs(built@, i, built@[j].0);
                assert(required_genes(nodes[i].1)
                    == built@[i].1.gene_requirements());
                assert(required_genes(nodes[i].1).contains(nodes[j].0));
            }
        }
    }
    genome
}


/// A newborn: at the origin, with no tick lived and no step made.
pub open spec fn newborn(rep: &Replicant) -> bool {
    rep.pos == (0i32, 0i32) && rep.time == 0 && rep.moves == 0 && rep.net.wf()
}

/// The agent at place `i` is a newborn child in the colour of its group.
pub open spec fn child_at(reps: Seq<Replicant>, pop_size: usize, i: int) -> bool {
    newborn(&reps[i]) && reps[i].net@.genome.color == group_color(child_group(pop_size, i))
}

/// Breeds `count` children from a genome and adds them to `out`. Before
/// each child a draw decides whether the genome is mutated first; a mutation
/// stays for the children that follow.
pub fn breed(
    genome: &mut NetGenome,
    count: usize,
    threshold: u32,
    rng: &mut RandomSource,
    out: &mut Vec<Replicant>,
)
    requires
        old(genome).wf(),
    ensures
        final(genome).wf(),
        final(genome)@.color == old(genome)@.color,
        final(genome)@.nodes == bred(old(genome)@.nodes, *old(rng), threshold, count as int).nodes,
        *final(rng) == bred(old(genome)@.nodes, *old(rng), threshold, count as int).rng,
        final(out).len() == old(out).len() + count,
        forall|k: int| 0 <= k < old(out).len() ==> #[trigger] final(out)@[k] == old(out)@[k],
        forall|i: int|
            old(out).len() <= i < old(out).len() + count ==> newborn(&final(out)@[i])
                && (#[trigger] final(out)@[i]).net@ == grown(
                NetGenomeView {
                    color: old(genome)@.color,
                    nodes: bred(
                        old(genome)@.nodes,
                        *old(rng),
                        threshold,
                        i - old(out).len() + 1,
                    ).nodes,
                },
            ),
{
    let ghost nodes0 = genome@.nodes;
    let ghost color = genome@.color;
    let ghost rng0 = *rng;
    let ghost base = out.len();
    let mut k: usize = 0;
    while k < count
        invariant
            k <= count,
            genome.wf(),
            genome@.color == color,
            genome@.nodes == bred(nodes0, rng0, threshold, k as int).nodes,
            *rng == bred(nodes0, rng0, threshold, k as int).rng,
            base == old(out).len(),
            out.len() == base + k,
            forall|j: int| 0 <= j < base ==> #[trigger] out@[j] == old(out)@[j],
            forall|i: int|
                base <= i < base + k ==> newborn(&out@[i]) && (#[trigger] out@[i]).net@ == grown(
                    NetGenomeView {
                        color,
                        nodes: bred(nodes0, rng0, threshold, i - base + 1).nodes,
                    },
                ),
        decreases count - k,
    {
        let draw = rng.below(1000);
        if draw >= threshold {
            genome.randomize(rng);
        }
        let child = Replicant::from_genome(genome);
        let ghost before = out@;
        out.push(child);
        proof {
            assert(genome@ == (NetGenomeView {
                color,
                nodes: bred(nodes0, rng0, threshold, k + 1).nodes,
            }));
            assert forall|i: int| base <= i < base + k + 1 implies newborn(&out@[i]) && (
            #[trigger] out@[i]).net@ == grown(
                NetGenomeView { color, nodes: bred(nodes0, rng0, threshold, i - base + 1).nodes },
            ) by {
                if i < base + k {
                    assert(out@[i] == before[i]);
                }
            }
        }
        k += 1;
    }
}

/// The least draw, of a thousand, that has a child of the group mutated.
fn threshold_of(g: usize) -> (t: u32)
    ensures
        t == mutation_threshold(g as int),
{
    if g == 0 {
        990
    } else if g == 1 {
        995
    } else {
        999
    }
}

/// The pools of the groups as values.
pub open spec fn pool_views(pools: Seq<Pool>) -> Seq<PoolView<NeuralTarget, NeuralSourceGenome>> {
    pools.map_values(|p: Pool| p@)
}

/// The children of batch `b` of a group with the given share: a full batch,
/// or what is left of the share.
pub open spec fn batch_len(share: int, b: int) -> int {
    if share - BATCH * b < BATCH {
        share - BATCH * b
    } else {
        BATCH as int
    }
}

/// The batches that a share takes.
pub open spec fn batches(share: int) -> int {
    (share + BATCH - 1) / (BATCH as int)
}

/// The random source before batch `b` of a group is bred.
pub open spec fn batch_rng(
    nodes: Seq<NodeView>,
    rng: RandomSource,
    threshold: u32,
    share: int,
    b: int,
) -> RandomSource
    decreases b,
{
    if b <= 0 {
        rng
    } else {
        bred(
            nodes,
            batch_rng(nodes, rng, threshold, share, b - 1),
            threshold,
            batch_len(share, b - 1),
        ).rng
    }
}

/// The random source before the children of group `g` are bred.
pub open spec fn group_rng(
    pools: Seq<PoolView<NeuralTarget, NeuralSourceGenome>>,
    pop_size: usize,
    rng: RandomSource,
    g: int,
) -> RandomSource
    decreases g,
{
    if g <= 0 {
        rng
    } else {
        batch_rng(
            assembled(pools[g - 1]),
            group_rng(pools, pop_size, rng, g - 1),
            mutation_threshold(g - 1),
            quota(pop_size, g - 1),
            batches(quota(pop_size, g - 1)),
        )
    }
}

/// The place in the population of the first child of group `g`.
pub open spec fn group_base(pop_size: usize, g: int) -> int {
    (if g >= 1 {
        quota(pop_size, 0)
    } else {
        0
    }) + (if g >= 2 {
        quota(pop_size, 1)
    } else {
        0
    }) + (if g >= 3 {
        quota(pop_size, 2)
    } else {
        0
    })
}

/// The genome of the child at place `i` of the next generation: what the
/// pool of its group gives for the action genes, in the colour of the group,
/// with the mutations that its batch has gone through up to this child.
pub open spec fn child_genome(
    pools: Seq<PoolView<NeuralTarget, NeuralSourceGenome>>,
    pop_size: usize,
    rng: RandomSource,
    i: int,
) -> NetGenomeView {
    let g = child_group(pop_size, i);
    let k = i - group_base(pop_size, g);
    let nodes = assembled(pools[g]);
    NetGenomeView {
        color: group_color(g),
        nodes: bred(
            nodes,
            batch_rng(
                nodes,
                group_rng(pools, pop_size, rng, g),
                mutation_threshold(g),
                quota(pop_size, g),
                k / (BATCH as int),
            ),
            mutation_threshold(g),
            k % (BATCH as int) + 1,
        ).nodes,
    }
}

/// The agent at place `i` is the newborn child that the pools give for the
/// place.
pub open spec fn bred_at(
    reps: Seq<Replicant>,
    pools: Seq<PoolView<NeuralTarget, NeuralSourceGenome>>,
    pop_size: usize,
    rng: RandomSource,
    i: int,
) -> bool {
    newborn(&reps[i]) && reps[i].net@ == grown(child_genome(pools, pop_size, rng, i))
}

impl Server {
    /// The agents are newborn children, as many as the population counts,
    /// and the child at each place wears the colour of its group.
    pub open spec fn newly_bred(&self) -> bool {
        &&& self.sim.replicants.len() == self.pop_size
        &&& forall|i: int|
            0 <= i < self.sim.replicants.len() ==> #[trigger] child_at(
                self.sim.replicants@,
                self.pop_size,
                i,
            )
    }

    /// Replaces the population by the next generation. Each group gets its
    /// share of the children, whatever the number of its survivors. The
    /// children of a group are bred in batches of `BATCH` at most, each batch
    /// from the genome that the group's pool gives for the action genes, in
    /// the colour of the group. The population keeps its size.
    #[verifier::rlimit(50)]
    pub fn replace_replicants_v2(&mut self)
        requires
            old(self).pools_wf(),
        ensures
            final(self).newly_bred(),
            forall|i: int|
                0 <= i < final(self).sim.replicants.len() ==> #[trigger] bred_at(
                    final(self).sim.replicants@,
                    pool_views(old(self).gene_pools@),
                    old(self).pop_size,
                    old(self).rng,
                    i,
                ),
            final(self).rng == group_rng(
                pool_views(old(self).gene_pools@),
                old(self).pop_size,
                old(self).rng,
                GROUPS as int,
            ),
            final(self).gene_pools == old(self).gene_pools,
            final(self).sim.world == old(self).sim.world,
            final(self).sim.mapper == old(self).sim.mapper,
            final(self).sim.rule == old(self).sim.rule,
            final(self).generation == old(self).generation,
            final(self).time == old(self).time,
            final(self).pop_size == old(self).pop_size,
            final(self).prev_survival == old(self).prev_survival,
            final(self).rng.seed == old(self).rng.seed,
    {
        self.sim.replicants.clear();
        let ghost pop = self.pop_size;
        let ghost pools = pool_views(self.gene_pools@);
        let ghost rng0 = self.rng;
        proof {
            lemma_quota(pop);
        }
        let mut g: usize = 0;
        let mut base: usize = 0;
        while g < GROUPS
            invariant
                g <= GROUPS,
                self.pools_wf(),
                self.gene_pools == old(self).gene_pools,
                pools == pool_views(self.gene_pools@),
                rng0 == old(self).rng,
                self.sim.world == old(self).sim.world,
                self.sim.mapper == old(self).sim.mapper,
                self.sim.rule == old(self).sim.rule,
                self.generation == old(self).generation,
                self.time == old(self).time,
                self.pop_size == pop,
                pop == old(self).pop_size,
                self.prev_survival == old(self).prev_survival,
                self.rng.seed == old(self).rng.seed,
                self.rng == group_rng(pools, pop, rng0, g as int),
                self.sim.replicants.len() == base,
                base == group_base(pop, g as int),
                quota(pop, 0) + quota(pop, 1) + quota(pop, 2) == pop,
                forall|i: int| 0 <= i < base ==> #[trigger] child_at(self.sim.replicants@, pop, i),
                forall|i: int|
                    0 <= i < base ==> #[trigger] bred_at(self.sim.replicants@, pools, pop, rng0, i),
            decreases GROUPS - g,
        {
            let share_g: usize = share(self.pop_size, g);
            let threshold = threshold_of(g);
            let mut inserted: usize = 0;
            let ghost mut b: int = 0;
            let ghost start = self.rng;
            let ghost nodes0 = assembled(pools[g as int]);
            assert(pools[g as int] == self.gene_pools@[g as int]@);
            while inserted < share_g
                invariant
                    inserted <= share_g,
                    g < GROUPS,
                    share_g == quota(pop, g as int),
                    threshold == mutation_threshold(g as int),
                    self.pools_wf(),
                    self.gene_pools == old(self).gene_pools,
                    pools == pool_views(self.gene_pools@),
                    nodes0 == assembled(pools[g as int]),
                    pools[g as int] == self.gene_pools@[g as int]@,
                    rng0 == old(self).rng,
                    start == group_rng(pools, pop, rng0, g as int),
                    self.sim.world == old(self).sim.world,
                    self.sim.mapper == old(self).sim.mapper,
                    self.sim.rule == old(self).sim.rule,
                    self.generation == old(self).generation,
                    self.time == old(self).time,
                    self.pop_size == pop,
                    pop == old(self).pop_size,
                    self.prev_survival == old(self).prev_survival,
                    self.rng.seed == old(self).rng.seed,
                    0 <= b,
                    inserted == if BATCH * b <= share_g {
                        BATCH * b
                    } else {
                        share_g as int
                    },
                    b == 0 || BATCH * (b - 1) < share_g,
                    self.rng == batch_rng(nodes0, start, threshold, share_g as int, b),
                    self.sim.replicants.len() == base + inserted,
                    base + share_g <= pop,
                    base == group_base(pop, g as int),
                    quota(pop, 0) + quota(pop, 1) + quota(pop, 2) == pop,
                    forall|i: int|
                        0 <= i < base + inserted ==> #[trigger] child_at(
                            self.sim.replicants@,
                            pop,
                            i,
                        ),
                    forall|i: int|
                        0 <= i < base + inserted ==> #[trigger] bred_at(
                            self.sim.replicants@,
                            pools,
                            pop,
                            rng0,
                            i,
                        ),
                decreases share_g - inserted,
            {
                let mut genome = assemble(&self.gene_pools[g], g);
                let left: usize = share_g - inserted;
                let count: usize = if left < BATCH { left } else { BATCH };
                let ghost before = self.sim.replicants@;
                let ghost batch_start = self.rng;
                breed(&mut genome, count, threshold, &mut self.rng, &mut self.sim.replicants);
                proof {
                    lemma_bred_seed(nodes0, batch_start, threshold, count as int);
                    assert(count == batch_len(share_g as int, b));
                    assert(inserted == BATCH * b);
                    assert forall|i: int|
                        0 <= i < base + inserted + count implies #[trigger] child_at(
                        self.sim.replicants@,
                        pop,
                        i,
                    ) by {
                        if i < base + inserted {
                            assert(child_at(before, pop, i));
                            assert(self.sim.replicants@[i] == before[i]);
                        } else {
                            assert(newborn(&self.sim.replicants@[i]));
                            assert(self.sim.replicants@[i].net@.genome.color == group_color(
                                g as int,
                            ));
                            assert(child_group(pop, i) == g);
                        }
                    }
                    assert forall|i: int|
                        0 <= i < base + inserted + count implies #[trigger] bred_at(
                        self.sim.replicants@,
                        pools,
                        pop,
                        rng0,
                        i,
                    ) by {
                        if i < base + inserted {
                            assert(bred_at(before, pools, pop, rng0, i));
                            assert(self.sim.replicants@[i] == before[i]);
                        } else {
                            let k = i - base;
                            let j = i - before.len();
                            assert(newborn(&self.sim.replicants@[i]));
                            assert(child_group(pop, i) == g);
                            assert(k == BATCH * b + j);
                            assert(0 <= j < BATCH);
                            lemma_batch_place(b, j);
                        }
                    }
                }
                inserted += count;
                proof {
                    b = b + 1;
                }
            }
            proof {
                assert(b == batches(share_g as int));
            }
            base += share_g;
            g += 1;
        }
    }
}

/// The child at place `j` of batch `b` is child `BATCH * b + j` of its
/// group.
proof fn lemma_batch_place(b: int, j: int)
    requires
        0 <= b,
        0 <= j < BATCH,
    ensures
        (BATCH * b + j) / (BATCH as int) == b,
        (BATCH * b + j) % (BATCH as int) == j,
{
    vstd::arithmetic::div_mod::lemma_fundamental_div_mod_converse(
        BATCH * b + j,
        BATCH as int,
        b,
        j,
    );
}

/// Breeding keeps the seed of the random source.
pub proof fn lemma_bred_seed(nodes: Seq<NodeView>, rng: RandomSource, threshold: u32, k: int)
    ensures
        bred(nodes, rng, threshold, k).rng.seed == rng.seed,
    decreases k,
{
    if k > 0 {
        lemma_bred_seed(nodes, rng, threshold, k - 1);
        let before = bred(nodes, rng, threshold, k - 1);
        if before.rng.peek(0) % 1000 >= threshold {
            lemma_randomized_seed(before.nodes, before.rng.skip(1));
        }
    }
}

} // verus!
