//! Scoring at the end of a round: who survived, what that is worth, and
//! how the nodes of every agent are recorded in the pool of its group.

use crate::allele::digest_sum;
use crate::assoc::has_key;
use crate::assoc::keys_distinct;
use crate::assoc::lemma_map_keys;
use crate::assoc::lemma_position_bound;
use crate::assoc::position;
use crate::assoc::put;
use crate::net::NeuralSourceGenome;
use crate::net::NeuralTarget;
use crate::net::nodes_wf;
use crate::net::NodeView;
use crate::net::Synapse;
use crate::pool::AlleleID;
use crate::pool::GenePool;
use crate::pool::observed;
use crate::pool::PoolView;
use crate::pool::recorded;
use crate::pool::Score;
use crate::pool::Table;
use crate::pool::table_of;
use crate::replicant::alive_under;
use crate::replicant::Replicant;
use crate::replicant::Survival;
use crate::server::GROUPS;
use crate::server::Server;
use crate::simulation::CellMapper;
use crate::simulation::group;
use crate::world::World;
use vstd::prelude::*;

verus! {

/// The pool of one group: the nodes that were seen for each node identity.
pub type Pool = GenePool<NeuralTarget, NeuralSourceGenome>;

/// The table of a gene with every node as a value.
pub type DeepTable = Seq<(AlleleID, (Seq<Synapse>, Score))>;

/// A pool with every node as a value.
pub type DeepPool = Seq<(NeuralTarget, DeepTable)>;

/// The table with every node as a value.
pub open spec fn deep_table(table: Table<NeuralSourceGenome>) -> DeepTable {
    table.map_values(|e: (AlleleID, (NeuralSourceGenome, Score))| (e.0, (e.1.0@, e.1.1)))
}

/// The pool with every node as a value.
pub open spec fn deep_pool(pool: PoolView<NeuralTarget, NeuralSourceGenome>) -> DeepPool {
    pool.map_values(
        |e: (NeuralTarget, Table<NeuralSourceGenome>)| (e.0, deep_table(e.1)),
    )
}

/// The table with one more observation of a node: the node is entered with
/// an empty score if its identity is new, and the score takes the sample.
pub open spec fn observed_deep(table: DeepTable, inputs: Seq<Synapse>, fitness: u32) -> DeepTable {
    let id = digest_sum(inputs);
    if has_key(table, id) {
        let p = position(table, id);
        table.update(p, (id, (table[p].1.0, table[p].1.1.sampled(fitness))))
    } else {
        table.push((id, (inputs, (Score { avg: 0, tot: 0, count: 0 }).sampled(fitness))))
    }
}

/// The pool with one more observation of a node under a gene.
pub open spec fn recorded_deep(
    pool: DeepPool,
    gene: NeuralTarget,
    inputs: Seq<Synapse>,
    fitness: u32,
) -> DeepPool {
    put(pool, gene, observed_deep(table_of(pool, gene), inputs, fitness))
}

/// Recording a node does to the pool of values what it does to the pool.
pub proof fn lemma_recorded_deep(
    pool: PoolView<NeuralTarget, NeuralSourceGenome>,
    gene: NeuralTarget,
    allele: NeuralSourceGenome,
    fitness: u32,
)
    ensures
        deep_pool(recorded(pool, gene, allele, fitness)) == recorded_deep(
            deep_pool(pool),
            gene,
            allele@,
            fitness,
        ),
{
    let shallow = |e: (NeuralTarget, Table<NeuralSourceGenome>)| (e.0, deep_table(e.1));
    let entry = |e: (AlleleID, (NeuralSourceGenome, Score))| (e.0, (e.1.0@, e.1.1));
    let table = table_of(pool, gene);
    let id = digest_sum(allele@);
    lemma_map_keys(pool, shallow, gene);
    lemma_map_keys(table, entry, id);
    if has_key(pool, gene) {
        lemma_position_bound(pool, gene);
    }
    assert(table_of(deep_pool(pool), gene) =~= deep_table(table));
    if has_key(table, id) {
        lemma_position_bound(table, id);
    }
    assert(deep_table(observed::<NeuralTarget, NeuralSourceGenome>(table, allele, fitness))
        =~= observed_deep(deep_table(table), allele@, fitness));
    assert(deep_pool(recorded(pool, gene, allele, fitness)) =~= recorded_deep(
        deep_pool(pool),
        gene,
        allele@,
        fitness,
    ));
}

/// The places in the population of those of the first `n` agents that
/// belong to group `g` and survive as things stand, in their order.
pub open spec fn survivors(
    reps: Seq<Replicant>,
    world: &World,
    map: &CellMapper,
    rule: Survival,
    g: usize,
    n: int,
) -> Seq<usize>
    decreases n,
{
    if n <= 0 {
        Seq::empty()
    } else if group(&reps[n - 1]) == g && alive_under(
        rule,
        world,
        map,
        reps[n - 1].pos,
        group(&reps[n - 1]),
    ) {
        survivors(reps, world, map, rule, g, n - 1).push((n - 1) as usize)
    } else {
        survivors(reps, world, map, rule, g, n - 1)
    }
}

/// There are no more survivors than agents.
pub proof fn lemma_survivors_len(
    reps: Seq<Replicant>,
    world: &World,
    map: &CellMapper,
    rule: Survival,
    g: usize,
    n: int,
)
    requires
        0 <= n,
    ensures
        survivors(reps, world, map, rule, g, n).len() <= n,
    decreases n,
{
    if n > 0 {
        lemma_survivors_len(reps, world, map, rule, g, n - 1);
    }
}

/// What an agent earns on top of one for surviving: three times the share
/// of the population that survived in its group.
pub open spec fn balance_bonus(alive: int, pop_size: int) -> int {
    if pop_size <= 0 {
        0
    } else {
        alive * 3000 / pop_size
    }
}

/// The fitness of an agent at the end of a round: one plus the bonus of
/// its group if it survives, nothing if it does not.
pub open spec fn fitness_of(alive: bool, group_alive: int, pop_size: int) -> int {
    if alive {
        1000 + balance_bonus(group_alive, pop_size)
    } else {
        0
    }
}

/// The bonus of a group.
fn bonus(alive: usize, pop_size: usize) -> (b: u32)
    requires
        alive <= pop_size,
    ensures
        b == balance_bonus(alive as int, pop_size as int),
        b <= 3000,
{
    if pop_size == 0 {
        0
    } else {
        assert(alive * 3000 / (pop_size as int) <= 3000) by (nonlinear_arith)
            requires
                0 <= alive <= pop_size,
                pop_size > 0,
        ;
        let b: u128 = (alive as u128) * 3000 / (pop_size as u128);
        b as u32
    }
}


/// The pool after the first `m` nodes of a network were recorded with the
/// fitness of its agent.
pub open spec fn scored_net(pool: DeepPool, nodes: Seq<NodeView>, fitness: u32, m: int) -> DeepPool
    decreases m,
{
    if m <= 0 {
        pool
    } else {
        recorded_deep(
            scored_net(pool, nodes, fitness, m - 1),
            nodes[m - 1].0,
            nodes[m - 1].1,
            fitness,
        )
    }
}

/// The fitness of agent `i` at the end of a round.
pub open spec fn agent_fitness(
    reps: Seq<Replicant>,
    world: &World,
    map: &CellMapper,
    rule: Survival,
    pop_size: usize,
    i: int,
) -> u32 {
    fitness_of(
        alive_under(rule, world, map, reps[i].pos, group(&reps[i])),
        survivors(reps, world, map, rule, group(&reps[i]), reps.len() as int).len() as int,
        pop_size as int,
    ) as u32
}

/// The pools of the groups after the first `n` agents were scored: every
/// node of an agent is recorded, with the agent's fitness, in the pool of
/// the agent's group.
pub open spec fn scored(
    pools: Seq<DeepPool>,
    reps: Seq<Replicant>,
    world: &World,
    map: &CellMapper,
    rule: Survival,
    pop_size: usize,
    n: int,
) -> Seq<DeepPool>
    decreases n,
{
    if n <= 0 {
        pools
    } else {
        let before = scored(pools, reps, world, map, rule, pop_size, n - 1);
        let g = group(&reps[n - 1]) as int;
        before.update(
            g,
            scored_net(
                before[g],
                reps[n - 1].net@.genome.nodes,
                agent_fitness(reps, world, map, rule, pop_size, n - 1),
                reps[n - 1].net@.genome.nodes.len() as int,
            ),
        )
    }
}

/// The pools of the groups with every node as a value.
pub open spec fn deep_pools(pools: Seq<Pool>) -> Seq<DeepPool> {
    pools.map_values(|p: Pool| deep_pool(p@))
}

/// Scoring keeps the number of pools.
pub proof fn lemma_scored_len(
    pools: Seq<DeepPool>,
    reps: Seq<Replicant>,
    world: &World,
    map: &CellMapper,
    rule: Survival,
    pop_size: usize,
    n: int,
)
    requires
        pools.len() == GROUPS,
    ensures
        scored(pools, reps, world, map, rule, pop_size, n).len() == pools.len(),
    decreases n,
{
    if n > 0 {
        lemma_scored_len(pools, reps, world, map, rule, pop_size, n - 1);
    }
}

impl Server {
    /// There is a pool for each group, and each is well formed.
    pub open spec fn pools_wf(&self) -> bool {
        &&& self.gene_pools.len() == GROUPS
        &&& forall|g: int| 0 <= g < GROUPS ==> (#[trigger] self.gene_pools[g]).wf()
    }

    /// The survivors of each group, by their place in the population.
    pub fn get_pools(&self) -> (pools: Vec<Vec<usize>>)
        requires
            self.sim.mapper.wf(),
        ensures
            pools.len() == GROUPS,
            forall|g: int|
                0 <= g < GROUPS ==> (#[trigger] pools@[g])@ == survivors(
                    self.sim.replicants@,
                    &self.sim.world,
                    &self.sim.mapper,
                    self.sim.rule,
                    g as usize,
                    self.sim.replicants.len() as int,
                ),
    {
        let ghost reps = self.sim.replicants@;
        let mut pools: Vec<Vec<usize>> = Vec::new();
        pools.push(Vec::new());
        pools.push(Vec::new());
        pools.push(Vec::new());
        let mut i: usize = 0;
        while i < self.sim.replicants.len()
            invariant
                i <= self.sim.replicants.len(),
                self.sim.mapper.wf(),
                reps == self.sim.replicants@,
                pools.len() == GROUPS,
                forall|g: int|
                    0 <= g < GROUPS ==> (#[trigger] pools@[g])@ == survivors(
                        reps,
                        &self.sim.world,
                        &self.sim.mapper,
                        self.sim.rule,
                        g as usize,
                        i as int,
                    ),
            decreases self.sim.replicants.len() - i,
        {
            let g = self.sim.replicants[i].net.pool();
            let alive = self.sim.replicants[i].survives(
                self.sim.rule,
                &self.sim.world,
                &self.sim.mapper,
            );
            let ghost listed = pools@;
            if alive {
                pools[g].push(i);
            }
            proof {
                assert forall|h: int| 0 <= h < GROUPS implies (#[trigger] pools@[h])@ == survivors(
                    reps,
                    &self.sim.world,
                    &self.sim.mapper,
                    self.sim.rule,
                    h as usize,
                    i + 1,
                ) by {
                    if !(alive && h == g) {
                        assert(pools@[h] == listed[h]);
                    }
                }
            }
            i += 1;
        }
        pools
    }

    /// Scores the round: every node of every agent is recorded in the pool
    /// of the agent's group, with one plus the group's bonus if the agent
    /// survives and with nothing if it does not. The number of survivors of
    /// each group is noted.
    pub fn score_genes(&mut self)
        requires
            old(self).pools_wf(),
            old(self).sim.mapper.wf(),
            old(self).sim.nets_wf(),
            old(self).sim.replicants.len() <= old(self).pop_size,
        ensures
            final(self).pools_wf(),
            final(self).sim == old(self).sim,
            final(self).generation == old(self).generation,
            final(self).time == old(self).time,
            final(self).pop_size == old(self).pop_size,
            final(self).rng == old(self).rng,
            deep_pools(final(self).gene_pools@) == scored(
                deep_pools(old(self).gene_pools@),
                old(self).sim.replicants@,
                &old(self).sim.world,
                &old(self).sim.mapper,
                old(self).sim.rule,
                old(self).pop_size,
                old(self).sim.replicants.len() as int,
            ),
            forall|g: int|
                0 <= g < GROUPS ==> #[trigger] final(self).prev_survival@[g] == survivors(
                    old(self).sim.replicants@,
                    &old(self).sim.world,
                    &old(self).sim.mapper,
                    old(self).sim.rule,
                    g as usize,
                    old(self).sim.replicants.len() as int,
                ).len(),
    {
        let ghost reps = self.sim.replicants@;
        let ghost pools0 = deep_pools(self.gene_pools@);
        let alive = self.get_pools();
        let n: usize = self.sim.replicants.len();
        proof {
            lemma_survivors_len(reps, &self.sim.world, &self.sim.mapper, self.sim.rule, 0, n as int);
            lemma_survivors_len(reps, &self.sim.world, &self.sim.mapper, self.sim.rule, 1, n as int);
            lemma_survivors_len(reps, &self.sim.world, &self.sim.mapper, self.sim.rule, 2, n as int);
        }
        let counts: [usize; 3] = [alive[0].len(), alive[1].len(), alive[2].len()];
        self.prev_survival = counts;
        assert(pools0.len() == GROUPS);
        let mut i: usize = 0;
        while i < n
            invariant
                i <= n,
                n == reps.len(),
                self.sim == old(self).sim,
                reps == self.sim.replicants@,
                self.generation == old(self).generation,
                self.time == old(self).time,
                self.pop_size == old(self).pop_size,
                self.rng == old(self).rng,
                self.prev_survival == counts,
                self.pools_wf(),
                pools0.len() == GROUPS,
                self.sim.mapper.wf(),
                self.sim.nets_wf(),
                n <= self.pop_size,
                alive.len() == GROUPS,
                forall|g: int|
                    0 <= g < GROUPS ==> (#[trigger] alive@[g])@ == survivors(
                        reps,
                        &self.sim.world,
                        &self.sim.mapper,
                        self.sim.rule,
                        g as usize,
                        n as int,
                    ),
                deep_pools(self.gene_pools@) == scored(
                    pools0,
                    reps,
                    &self.sim.world,
                    &self.sim.mapper,
                    self.sim.rule,
                    self.pop_size,
                    i as int,
                ),
            decreases n - i,
        {
            let g = self.sim.replicants[i].net.pool();
            let lives = self.sim.replicants[i].survives(
                self.sim.rule,
                &self.sim.world,
                &self.sim.mapper,
            );
            proof {
                lemma_survivors_len(
                    reps,
                    &self.sim.world,
                    &self.sim.mapper,
                    self.sim.rule,
                    g,
                    n as int,
                );
                assert(alive@[g as int]@.len() <= n);
            }
            let extra: u32 = bonus(alive[g].len(), self.pop_size);
            let score: u32 = if lives { 1000 + extra } else { 0 };
            let ghost before = deep_pools(self.gene_pools@);
            let ghost nodes = reps[i as int].net@.genome.nodes;
            proof {
                lemma_scored_len(
                    pools0,
                    reps,
                    &self.sim.world,
                    &self.sim.mapper,
                    self.sim.rule,
                    self.pop_size,
                    i as int,
                );
                assert(score == agent_fitness(
                    reps,
                    &self.sim.world,
                    &self.sim.mapper,
                    self.sim.rule,
                    self.pop_size,
                    i as int,
                ));
                assert(reps[i as int].net.wf());
                assert(before[g as int] == deep_pool(self.gene_pools@[g as int]@));
            }
            let m: usize = self.sim.replicants[i].net.genome.nodes.len();
            let mut j: usize = 0;
            while j < m
                invariant
                    j <= m,
                    i < n,
                    g < GROUPS,
                    n == reps.len(),
                    self.sim == old(self).sim,
                    reps == self.sim.replicants@,
                    self.generation == old(self).generation,
                    self.time == old(self).time,
                    self.pop_size == old(self).pop_size,
                    self.rng == old(self).rng,
                    self.prev_survival == counts,
                    self.pools_wf(),
                    nodes == reps[i as int].net@.genome.nodes,
                    nodes_wf(nodes),
                    m == nodes.len(),
                    before.len() == GROUPS,
                    deep_pools(self.gene_pools@) == before.update(
                        g as int,
                        scored_net(before[g as int], nodes, score, j as int),
                    ),
                decreases m - j,
            {
                let gene = self.sim.replicants[i].net.genome.nodes[j].0;
                let node = self.sim.replicants[i].net.genome.nodes[j].1.clone();
                let ghost now = self.gene_pools@;
                proof {
                    assert(nodes[j as int] == (
                        self.sim.replicants[i as int].net.genome.nodes[j as int].0,
                        self.sim.replicants[i as int].net.genome.nodes[j as int].1@,
                    ));
                    assert(keys_distinct(nodes[j as int].1));
                    lemma_recorded_deep(now[g as int]@, gene, node, score);
                    assert(deep_pools(now)[g as int] == deep_pool(now[g as int]@));
                }
                self.gene_pools[g].record(&gene, node, score);
                proof {
                    assert forall|h: int| 0 <= h < GROUPS implies (#[trigger] self.gene_pools[h]).wf() by {
                        if h != g {
                            assert(self.gene_pools[h] == now[h]);
                        }
                    }
                    let goal = before.update(
                        g as int,
                        scored_net(before[g as int], nodes, score, j + 1),
                    );
                    let after = deep_pools(self.gene_pools@);
                    assert(deep_pools(now)[g as int] == scored_net(
                        before[g as int],
                        nodes,
                        score,
                        j as int,
                    ));
                    assert forall|h: int| 0 <= h < GROUPS implies after[h] == goal[h] by {
                        assert(after[h] == deep_pool(self.gene_pools@[h]@));
                        if h != g {
                            assert(self.gene_pools@[h] == now[h]);
                            assert(deep_pools(now)[h] == deep_pool(now[h]@));
                        }
                    }
                    assert(after =~= goal);
                }
                j += 1;
            }
            i += 1;
        }
    }
}

} // verus!
