//! The round lifecycle of a population: ticking, ending a round, and
//! setting up the next.

use crate::assoc::position;
use crate::breeding::bred_at;
use crate::breeding::child_at;
use crate::breeding::group_rng;
use crate::breeding::newborn;
use crate::breeding::pool_views;
use crate::genome::HasGenome;
use crate::mutation::lemma_randomized_seed;
use crate::mutation::randomized;
use crate::mutation::recolored;
use crate::net::grown;
use crate::net::NetGenome;
use crate::net::NetGenomeView;
use crate::net::NeuralSourceGenome;
use crate::net::NeuralTarget;
use crate::pool::GenePool;
use crate::pool::Table;
use crate::replicant::Replicant;
use crate::replicant::Survival;
use crate::rng::pcg32_output;
use crate::rng::random;
use crate::rng::RandomSource;
use crate::scatter::fits;
use crate::scatter::grid_size;
use crate::scoring::deep_pools;
use crate::scoring::Pool;
use crate::scoring::scored;
use crate::scoring::survivors;
use crate::simulation::Cell;
use crate::simulation::CellMapper;
use crate::simulation::placed;
use crate::simulation::Simulation;
use crate::think::lemma_think_seed;
use crate::world::World;
use vstd::prelude::*;

verus! {

/// The number of groups.
pub const GROUPS: usize = 3;

/// A round lasts at least this many ticks.
pub const ROUND_BASE: usize = 300;

/// A round lasts fewer than this many ticks more than `ROUND_BASE`.
pub const ROUND_SPREAD: u32 = 50;

/// The children that are bred from one rebuilt genome.
pub const BATCH: usize = 200;

/// How long the round of a generation lasts: the base, and on top of it
/// what the first draw of the generation's own stream gives.
pub open spec fn round_length(generation: usize) -> int {
    ROUND_BASE + (pcg32_output(generation as u64, 0) % ROUND_SPREAD)
}

/// How long the round of a generation lasts.
pub fn round_limit(generation: usize) -> (limit: usize)
    ensures
        limit == round_length(generation),
        ROUND_BASE <= limit < ROUND_BASE + ROUND_SPREAD,
{
    let extra: u32 = random(generation as u64) % ROUND_SPREAD;
    ROUND_BASE + extra as usize
}

/// A population, its world, and the memory of what served its groups.
pub struct Server {
    /// The rounds that are over.
    pub generation: usize,
    /// The ticks of the round that is under way.
    pub time: usize,
    /// The population on its grid.
    pub sim: Simulation,
    /// The pool of each group.
    pub gene_pools: Vec<Pool>,
    /// The size of the population.
    pub pop_size: usize,
    /// How many agents of each group survived the last round.
    pub prev_survival: [usize; 3],
    /// The source of every random choice.
    pub rng: RandomSource,
}

/// The random source before founder `k` is made: each founder takes the
/// draws of one `randomize` and two more for its colour.
pub open spec fn founder_rng(rng: RandomSource, k: int) -> RandomSource
    decreases k,
{
    if k <= 0 {
        rng
    } else {
        randomized(Seq::empty(), founder_rng(rng, k - 1)).rng.skip(2)
    }
}

/// The genome of founder `k`: an empty genome after one `randomize`, with
/// black shifted at random for its colour.
pub open spec fn founder(rng: RandomSource, k: int) -> NetGenomeView {
    let made = randomized(Seq::empty(), founder_rng(rng, k));
    NetGenomeView {
        color: recolored(seq![0i32, 0i32, 0i32], made.rng),
        nodes: made.nodes,
    }
}

/// Making founders keeps the seed of the random source.
pub proof fn lemma_founder_seed(rng: RandomSource, k: int)
    ensures
        founder_rng(rng, k).seed == rng.seed,
    decreases k,
{
    if k > 0 {
        lemma_founder_seed(rng, k - 1);
        lemma_randomized_seed(Seq::empty(), founder_rng(rng, k - 1));
    }
}

impl Server {
    /// No agent has lived longer than the round, nor made more than four
    /// steps a tick.
    pub open spec fn counters_ok(&self) -> bool {
        forall|i: int|
            0 <= i < self.sim.replicants.len() ==> (#[trigger] self.sim.replicants@[i]).time
                <= self.time && self.sim.replicants@[i].moves <= 4 * self.sim.replicants@[i].time
    }

    /// The state is one that ticking leads to: the world has room for the
    /// population, pools and networks are well formed, the round is not
    /// overdue, and once the round is under way every agent of the full
    /// population holds a cell of its own.
    pub open spec fn wf(&self) -> bool {
        &&& self.sim.world.wf()
        &&& self.sim.mapper.wf()
        &&& fits(self.sim.mapper.spec_clip(), &self.sim.world)
        &&& self.pop_size <= grid_size(&self.sim.world)
        &&& self.pools_wf()
        &&& self.sim.nets_wf()
        &&& self.time <= ROUND_BASE + ROUND_SPREAD
        &&& self.counters_ok()
        &&& (self.time > 0 ==> self.sim.replicants.len() == self.pop_size && placed(
            self.sim.mapper.spec_clip(),
            self.sim.mapper@,
            self.sim.replicants@,
            self.sim.replicants.len() as int,
        ))
        &&& (self.time == 0 && self.generation > 0 ==> self.sim.replicants.len() == self.pop_size)
    }

    /// The round, the population size, the world, the rule and the pools are
    /// the same in both states.
    pub open spec fn same_frame(&self, post: &Server) -> bool {
        &&& post.generation == self.generation
        &&& post.time == self.time
        &&& post.pop_size == self.pop_size
        &&& post.prev_survival == self.prev_survival
        &&& post.gene_pools == self.gene_pools
        &&& post.sim.world == self.sim.world
        &&& post.sim.rule == self.sim.rule
    }

    /// `post` is this state with the population replaced by founders.
    pub open spec fn founds_to(&self, post: &Server) -> bool {
        &&& self.same_frame(post)
        &&& post.sim.mapper == self.sim.mapper
        &&& post.sim.replicants.len() == self.pop_size
        &&& forall|i: int|
            0 <= i < post.sim.replicants.len() ==> newborn(&post.sim.replicants@[i]) && (
            #[trigger] post.sim.replicants@[i]).net@ == grown(founder(self.rng, i))
        &&& post.rng == founder_rng(self.rng, self.pop_size as int)
    }

    /// `post` is this state after the round was scored and the next
    /// generation bred from the pools as they then stood.
    pub open spec fn finishes_to(&self, post: &Server) -> bool {
        &&& post.generation == self.generation
        &&& post.time == self.time
        &&& post.pop_size == self.pop_size
        &&& post.sim.world == self.sim.world
        &&& post.sim.rule == self.sim.rule
        &&& post.sim.mapper == self.sim.mapper
        &&& deep_pools(post.gene_pools@) == scored(
            deep_pools(self.gene_pools@),
            self.sim.replicants@,
            &self.sim.world,
            &self.sim.mapper,
            self.sim.rule,
            self.pop_size,
            self.sim.replicants.len() as int,
        )
        &&& forall|g: int|
            0 <= g < GROUPS ==> #[trigger] post.prev_survival@[g] == survivors(
                self.sim.replicants@,
                &self.sim.world,
                &self.sim.mapper,
                self.sim.rule,
                g as usize,
                self.sim.replicants.len() as int,
            ).len()
        &&& post.sim.replicants.len() == self.pop_size
        &&& forall|i: int|
            0 <= i < post.sim.replicants.len() ==> #[trigger] bred_at(
                post.sim.replicants@,
                pool_views(post.gene_pools@),
                self.pop_size,
                self.rng,
                i,
            )
        &&& post.rng == group_rng(
            pool_views(post.gene_pools@),
            self.pop_size,
            self.rng,
            GROUPS as int,
        )
    }

    /// `post` is this state after a round was set up, with `mid` as the
    /// state before the agents were scattered: the grid does not wrap, and
    /// the population is made of founders if no round is over yet.
    pub open spec fn sets_up_steps(&self, mid: &Server, post: &Server) -> bool {
        &&& self.same_frame(mid)
        &&& mid.sim.mapper.spec_clip().is_none()
        &&& if self.generation == 0 {
            &&& mid.sim.replicants.len() == self.pop_size
            &&& forall|i: int|
                0 <= i < mid.sim.replicants.len() ==> newborn(&mid.sim.replicants@[i]) && (
                #[trigger] mid.sim.replicants@[i]).net@ == grown(founder(self.rng, i))
            &&& mid.rng == founder_rng(self.rng, self.pop_size as int)
        } else {
            mid.sim.replicants == self.sim.replicants && mid.rng == self.rng
        }
        &&& mid.same_frame(post)
        &&& mid.sim.scatters_to(mid.rng, &post.sim, post.rng)
    }

    /// `post` is this state after a round was set up.
    pub open spec fn sets_up_to(&self, post: &Server) -> bool {
        exists|mid: Server| #[trigger] self.sets_up_steps(&mid, post)
    }

    /// `post` is this state after one tick, with `a` as the state once a
    /// round that had lasted its time was ended, and `b` as the state once a
    /// round that begins was set up.
    pub open spec fn tick_steps(&self, a: &Server, b: &Server, post: &Server) -> bool {
        &&& if self.time > round_length(self.generation) {
            exists|scored: Server| #[trigger]
                self.finishes_to(&scored) && *a == (Server {
                    time: 0,
                    generation: (self.generation + 1) as usize,
                    ..scored
                })
        } else {
            *a == *self
        }
        &&& if a.time == 0 {
            a.sets_up_to(b)
        } else {
            *b == *a
        }
        &&& post.generation == b.generation
        &&& post.pop_size == b.pop_size
        &&& post.prev_survival == b.prev_survival
        &&& post.gene_pools == b.gene_pools
        &&& post.time == b.time + 1
        &&& b.sim.ticks_to(b.rng, &post.sim, post.rng)
    }

    /// `post` is this state after one tick.
    pub open spec fn ticks_to(&self, post: &Server) -> bool {
        exists|a: Server, b: Server| #[trigger] self.tick_steps(&a, &b, post)
    }

    /// A server for a world of the given sides and a population of the given
    /// size, before its first tick; nothing if the world has no cells or too
    /// few for the population.
    pub fn new(width: i32, height: i32, pop_size: usize, seed: u64, rule: Survival) -> (server:
        Option<Server>)
        ensures
            server.is_some() == (width > 0 && height > 0 && pop_size <= width * height),
            server.is_some() ==> {
                &&& server.unwrap().wf()
                &&& server.unwrap().generation == 0
                &&& server.unwrap().time == 0
                &&& server.unwrap().pop_size == pop_size
                &&& server.unwrap().sim.world == (World { width, height })
                &&& server.unwrap().sim.rule == rule
                &&& server.unwrap().sim.replicants.len() == 0
                &&& server.unwrap().sim.mapper@ == Map::<Cell, usize>::empty()
                &&& server.unwrap().sim.mapper.spec_clip().is_none()
                &&& server.unwrap().rng == (RandomSource { seed, position: 0 })
                &&& forall|g: int|
                    0 <= g < GROUPS ==> (#[trigger] server.unwrap().gene_pools[g])@ == Seq::<
                        (NeuralTarget, Table<NeuralSourceGenome>),
                    >::empty()
            },
    {
        if width <= 0 || height <= 0 {
            return None;
        }
        assert(0 < width * height <= 0x7fff_ffff * 0x7fff_ffff) by (nonlinear_arith)
            requires
                0 < width <= 0x7fff_ffff,
                0 < height <= 0x7fff_ffff,
        ;
        let cells: u64 = (width as u64) * (height as u64);
        if pop_size as u64 > cells {
            return None;
        }
        let mut gene_pools: Vec<Pool> = Vec::new();
        gene_pools.push(GenePool::new());
        gene_pools.push(GenePool::new());
        gene_pools.push(GenePool::new());
        let server = Server {
            generation: 0,
            time: 0,
            sim: Simulation {
                world: World { width, height },
                replicants: Vec::new(),
                mapper: CellMapper::new(None),
                rule,
            },
            gene_pools,
            pop_size,
            prev_survival: [0, 0, 0],
            rng: RandomSource::new(seed),
        };
        Some(server)
    }

    /// Whether the round has lasted its time, so that the next tick ends it.
    pub fn round_over(&self) -> (over: bool)
        ensures
            over == (self.time > round_length(self.generation)),
    {
        self.time > round_limit(self.generation)
    }

    /// Replaces the population by founders: as many as the population
    /// counts, each with a genome of its own making.
    pub fn populate(&mut self)
        ensures
            old(self).founds_to(final(self)),
            final(self).sim.replicants.len() == old(self).pop_size,
            forall|i: int|
                0 <= i < final(self).sim.replicants.len() ==> newborn(
                    &final(self).sim.replicants@[i],
                ) && (#[trigger] final(self).sim.replicants@[i]).net@ == grown(
                    founder(old(self).rng, i),
                ),
            final(self).rng == founder_rng(old(self).rng, old(self).pop_size as int),
            final(self).gene_pools == old(self).gene_pools,
            final(self).sim.world == old(self).sim.world,
            final(self).sim.mapper == old(self).sim.mapper,
            final(self).sim.rule == old(self).sim.rule,
            final(self).generation == old(self).generation,
            final(self).time == old(self).time,
            final(self).pop_size == old(self).pop_size,
            final(self).prev_survival == old(self).prev_survival,
    {
        self.sim.replicants.clear();
        let ghost rng0 = self.rng;
        let mut k: usize = 0;
        while k < self.pop_size
            invariant
                k <= self.pop_size,
                self.sim.replicants.len() == k,
                rng0 == old(self).rng,
                self.rng == founder_rng(rng0, k as int),
                forall|i: int|
                    0 <= i < k ==> newborn(&self.sim.replicants@[i]) && (
                    #[trigger] self.sim.replicants@[i]).net@ == grown(founder(rng0, i)),
                self.gene_pools == old(self).gene_pools,
                self.sim.world == old(self).sim.world,
                self.sim.mapper == old(self).sim.mapper,
                self.sim.rule == old(self).sim.rule,
                self.generation == old(self).generation,
                self.time == old(self).time,
                self.pop_size == old(self).pop_size,
                self.prev_survival == old(self).prev_survival,
            decreases self.pop_size - k,
        {
            let mut genome = NetGenome::new();
            genome.randomize(&mut self.rng);
            genome.randomize_color(&mut self.rng);
            let rep = Replicant::from_genome(&genome);
            let ghost before = self.sim.replicants@;
            self.sim.replicants.push(rep);
            proof {
                assert(genome@ == founder(rng0, k as int));
                assert forall|i: int| 0 <= i < k + 1 implies newborn(&self.sim.replicants@[i]) && (
                #[trigger] self.sim.replicants@[i]).net@ == grown(founder(rng0, i)) by {
                    if i < k {
                        assert(self.sim.replicants@[i] == before[i]);
                    }
                }
            }
            k += 1;
        }
    }

    /// Sets up a round: the grid stops wrapping, the first generation is
    /// founded if no round is over yet, and the agents are scattered over the
    /// empty world.
    pub fn setup(&mut self)
        requires
            old(self).sim.world.wf(),
            old(self).pop_size <= grid_size(&old(self).sim.world),
            old(self).sim.nets_wf(),
            old(self).generation > 0 ==> old(self).sim.replicants.len() == old(self).pop_size,
        ensures
            old(self).sets_up_to(final(self)),
            final(self).sim.wf(),
            final(self).sim.mapper.spec_clip().is_none(),
            final(self).sim.replicants.len() == old(self).pop_size,
            final(self).gene_pools == old(self).gene_pools,
            final(self).sim.world == old(self).sim.world,
            final(self).sim.rule == old(self).sim.rule,
            final(self).generation == old(self).generation,
            final(self).time == old(self).time,
            final(self).pop_size == old(self).pop_size,
            final(self).prev_survival == old(self).prev_survival,
            final(self).rng.seed == old(self).rng.seed,
            old(self).generation > 0 ==> forall|i: int|
                0 <= i < final(self).sim.replicants.len() ==> {
                    &&& (#[trigger] final(self).sim.replicants@[i]).net == old(
                        self,
                    ).sim.replicants@[i].net
                    &&& final(self).sim.replicants@[i].time == old(self).sim.replicants@[i].time
                    &&& final(self).sim.replicants@[i].moves == old(self).sim.replicants@[i].moves
                },
            old(self).generation == 0 ==> forall|i: int|
                0 <= i < final(self).sim.replicants.len() ==> {
                    &&& (#[trigger] final(self).sim.replicants@[i]).net@ == grown(
                        founder(old(self).rng, i),
                    )
                    &&& final(self).sim.replicants@[i].time == 0
                    &&& final(self).sim.replicants@[i].moves == 0
                },
    {
        self.sim.mapper.set_clip(None);
        if self.generation == 0 {
            proof {
                lemma_founder_seed(self.rng, self.pop_size as int);
            }
            self.populate();
        }
        let ghost mid = *self;
        let ghost reps1 = self.sim.replicants@;
        assert(self.sim.nets_wf()) by {
            assert forall|i: int| 0 <= i < reps1.len() implies (#[trigger] reps1[i]).net.wf() by {
                if old(self).generation == 0 {
                    assert(newborn(&reps1[i]));
                } else {
                    assert(old(self).sim.replicants[i].net.wf());
                }
            }
        }
        let ok = self.sim.setup(&mut self.rng);
        assert(ok);
        assert(old(self).sets_up_steps(&mid, self));
        proof {
            assert forall|i: int| 0 <= i < self.sim.replicants.len() implies (
            #[trigger] self.sim.replicants[i]).net.wf() by {
                assert(self.sim.replicants@[i].net == reps1[i].net);
                assert(reps1[i].net.wf());
            }
            if old(self).generation == 0 {
                assert forall|i: int| 0 <= i < self.sim.replicants.len() implies {
                    &&& (#[trigger] self.sim.replicants@[i]).net@ == grown(
                        founder(old(self).rng, i),
                    )
                    &&& self.sim.replicants@[i].time == 0
                    &&& self.sim.replicants@[i].moves == 0
                } by {
                    assert(self.sim.replicants@[i].net == reps1[i].net);
                    assert(newborn(&reps1[i]));
                }
            }
        }
    }

    /// Ends the round: the agents are scored into the pools of their
    /// groups, and the next generation takes their place.
    pub fn finish_round(&mut self)
        requires
            old(self).pools_wf(),
            old(self).sim.mapper.wf(),
            old(self).sim.nets_wf(),
            old(self).sim.replicants.len() <= old(self).pop_size,
        ensures
            old(self).finishes_to(final(self)),
            final(self).pools_wf(),
            final(self).newly_bred(),
            deep_pools(final(self).gene_pools@) == scored(
                deep_pools(old(self).gene_pools@),
                old(self).sim.replicants@,
                &old(self).sim.world,
                &old(self).sim.mapper,
                old(self).sim.rule,
                old(self).pop_size,
                old(self).sim.replicants.len() as int,
            ),
            final(self).sim.world == old(self).sim.world,
            final(self).sim.mapper == old(self).sim.mapper,
            final(self).sim.rule == old(self).sim.rule,
            final(self).generation == old(self).generation,
            final(self).time == old(self).time,
            final(self).pop_size == old(self).pop_size,
            final(self).rng.seed == old(self).rng.seed,
    {
        self.score_genes();
        self.replace_replicants_v2();
    }

    /// One tick of the population. A round that has lasted its time is
    /// ended first: the agents are scored, the next generation is bred, and
    /// the count of generations goes up. A round that begins is set up. Then
    /// the simulation ticks once.
    ///
    /// Whatever happens, the population keeps its size and every agent holds
    /// a cell of its own.
    pub fn tick(&mut self)
        requires
            old(self).wf(),
            old(self).generation < usize::MAX,
        ensures
            old(self).ticks_to(final(self)),
            final(self).wf(),
            final(self).sim.wf(),
            final(self).sim.replicants.len() == final(self).pop_size,
            final(self).pop_size == old(self).pop_size,
            final(self).sim.world == old(self).sim.world,
            final(self).sim.rule == old(self).sim.rule,
            final(self).rng.seed == old(self).rng.seed,
            final(self).generation == if old(self).time > round_length(old(self).generation) {
                old(self).generation + 1
            } else {
                old(self).generation as int
            },
            final(self).time == if old(self).time > round_length(old(self).generation) {
                1
            } else {
                old(self).time + 1
            },
    {
        if self.time > round_limit(self.generation) {
            self.finish_round();
            let ghost scored = *self;
            self.time = 0;
            self.generation += 1;
            proof {
                assert(old(self).finishes_to(&scored) && *self == (Server {
                    time: 0,
                    generation: (old(self).generation + 1) as usize,
                    ..scored
                }));
                assert forall|i: int| 0 <= i < self.sim.replicants.len() implies (
                #[trigger] self.sim.replicants@[i]).net.wf() && self.sim.replicants@[i].time == 0
                    && self.sim.replicants@[i].moves == 0 by {
                    assert(child_at(self.sim.replicants@, self.pop_size, i));
                }
            }
        }
        let ghost a = *self;
        if self.time == 0 {
            self.setup();
        }
        let ghost b = *self;
        proof {
            assert forall|i: int| 0 <= i < self.sim.replicants.len() implies (
            #[trigger] self.sim.replicants[i]).time < usize::MAX && self.sim.replicants[i].moves
                <= usize::MAX - 4 by {
                assert(self.sim.replicants@[i].time <= self.time);
            }
        }
        let ghost reps1 = self.sim.replicants@;
        let ghost map1 = self.sim.mapper;
        let ghost rng1 = self.rng;
        self.sim.tick(&mut self.rng);
        self.time += 1;
        proof {
            lemma_think_seed(
                reps1,
                &self.sim.world,
                &map1,
                self.sim.rule,
                rng1,
                reps1.len() as int,
            );
            assert forall|i: int| 0 <= i < self.sim.replicants.len() implies (
            #[trigger] self.sim.replicants@[i]).time <= self.time && self.sim.replicants@[i].moves
                <= 4 * self.sim.replicants@[i].time by {
                assert(reps1[i].time <= self.time - 1);
            }
            assert(old(self).tick_steps(&a, &b, self));
        }
    }
}

impl Default for Server {
    /// A world of eighty cells a side with three thousand agents that
    /// survive in company.
    fn default() -> (server: Server)
        ensures
            server.wf(),
            server.generation == 0,
            server.time == 0,
            server.pop_size == 3000,
            server.sim.world == (World { width: 80, height: 80 }),
            server.sim.rule == Survival::Crowd,
            server.sim.replicants.len() == 0,
            server.sim.mapper@ == Map::<Cell, usize>::empty(),
            server.sim.mapper.spec_clip().is_none(),
            server.rng == (RandomSource { seed: 123, position: 0 }),
            forall|g: int|
                0 <= g < GROUPS ==> (#[trigger] server.gene_pools[g])@ == Seq::<
                    (NeuralTarget, Table<NeuralSourceGenome>),
                >::empty(),
    {
        let made = Server::new(80, 80, 3000, 123, Survival::Crowd);
        made.unwrap()
    }
}


impl Server {
    /// Whether the state is one that ticking leads to.
    pub fn check(&self) -> (ok: bool)
        ensures
            ok == self.wf(),
    {
        let width = self.sim.world.width;
        let height = self.sim.world.height;
        if width <= 0 || height <= 0 {
            return false;
        }
        match self.sim.mapper.clip() {
            None => {},
            Some((w, h)) => {
                if w <= 0 || h <= 0 || w < width || h < height {
                    return false;
                }
            },
        }
        assert(0 < width * height <= 0x7fff_ffff * 0x7fff_ffff) by (nonlinear_arith)
            requires
                0 < width <= 0x7fff_ffff,
                0 < height <= 0x7fff_ffff,
        ;
        let cells: u64 = (width as u64) * (height as u64);
        if self.pop_size as u64 > cells {
            return false;
        }
        if self.gene_pools.len() != GROUPS {
            return false;
        }
        let mut g: usize = 0;
        while g < GROUPS
            invariant
                g <= GROUPS,
                self.gene_pools.len() == GROUPS,
                forall|k: int| 0 <= k < g ==> (#[trigger] self.gene_pools[k]).wf(),
            decreases GROUPS - g,
        {
            if !self.gene_pools[g].check() {
                return false;
            }
            g += 1;
        }
        if !self.sim.check_nets() {
            return false;
        }
        if self.time > ROUND_BASE + ROUND_SPREAD as usize {
            return false;
        }
        let n: usize = self.sim.replicants.len();
        let mut i: usize = 0;
        while i < n
            invariant
                i <= n,
                n == self.sim.replicants.len(),
                self.time <= ROUND_BASE + ROUND_SPREAD,
                forall|k: int|
                    0 <= k < i ==> (#[trigger] self.sim.replicants@[k]).time <= self.time
                        && self.sim.replicants@[k].moves <= 4 * self.sim.replicants@[k].time,
            decreases n - i,
        {
            let lived = self.sim.replicants[i].time;
            if lived > self.time || self.sim.replicants[i].moves > 4 * lived {
                assert(!((self.sim.replicants@[i as int]).time <= self.time
                    && self.sim.replicants@[i as int].moves <= 4
                    * self.sim.replicants@[i as int].time));
                return false;
            }
            i += 1;
        }
        if self.time > 0 {
            if n != self.pop_size {
                return false;
            }
            if !self.sim.check_placed() {
                return false;
            }
        } else if self.generation > 0 && n != self.pop_size {
            return false;
        }
        true
    }
}

} // verus!
