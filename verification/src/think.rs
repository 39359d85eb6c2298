//! The sense and think phase of a tick: every agent reads its sensors and
//! runs its network, all against the same grid.

use crate::act::plan_views;
use crate::actions::Action;
use crate::input::Sensor;
use crate::net::fired_actions;
use crate::net::sensed;
use crate::net::ticked;
use crate::replicant::Replicant;
use crate::replicant::Survival;
use crate::rng::RandomSource;
use crate::sense::after_reading;
use crate::sense::read;
use crate::sense::reading;
use crate::simulation::CellMapper;
use crate::simulation::Simulation;
use crate::world::World;
use vstd::prelude::*;

verus! {

/// What an agent has sensed: the values of its slots, and the random source
/// after the sensing.
pub struct Sensed {
    pub input: Seq<(Sensor, i32)>,
    pub rng: RandomSource,
}

/// What the agent reads from its first `n` slots, slot by slot.
pub open spec fn inputs_for(
    rep: &Replicant,
    world: &World,
    map: &CellMapper,
    rule: Survival,
    rng: RandomSource,
    n: int,
) -> Sensed
    decreases n,
{
    if n <= 0 {
        Sensed { input: Seq::empty(), rng }
    } else {
        let before = inputs_for(rep, world, map, rule, rng, n - 1);
        let sensor = rep.net@.sensors[n - 1].0;
        Sensed {
            input: before.input.push(
                (sensor, reading(sensor, rep, world, map, rule, before.rng.peek(0)) as i32),
            ),
            rng: after_reading(sensor, before.rng),
        }
    }
}

/// The random source after the first `n` agents have sensed.
pub open spec fn think_rng(
    reps: Seq<Replicant>,
    world: &World,
    map: &CellMapper,
    rule: Survival,
    rng: RandomSource,
    n: int,
) -> RandomSource
    decreases n,
{
    if n <= 0 {
        rng
    } else {
        inputs_for(
            &reps[n - 1],
            world,
            map,
            rule,
            think_rng(reps, world, map, rule, rng, n - 1),
            reps[n - 1].net@.sensors.len() as int,
        ).rng
    }
}

/// What agent `i` senses in this tick: every agent reads the grid as it
/// stood before anyone moved.
pub open spec fn input_of(
    reps: Seq<Replicant>,
    world: &World,
    map: &CellMapper,
    rule: Survival,
    rng: RandomSource,
    i: int,
) -> Seq<(Sensor, i32)> {
    inputs_for(
        &reps[i],
        world,
        map,
        rule,
        think_rng(reps, world, map, rule, rng, i),
        reps[i].net@.sensors.len() as int,
    ).input
}

/// The actions that the network of agent `i` fires in this tick.
pub open spec fn plan_of(
    reps: Seq<Replicant>,
    world: &World,
    map: &CellMapper,
    rule: Survival,
    rng: RandomSource,
    i: int,
) -> Seq<Action> {
    fired_actions(
        sensed(reps[i].net@, input_of(reps, world, map, rule, rng, i)),
        reps[i].net@.neurons.len() as int,
    )
}

/// Sensing keeps the seed of the random source.
pub proof fn lemma_inputs_seed(
    rep: &Replicant,
    world: &World,
    map: &CellMapper,
    rule: Survival,
    rng: RandomSource,
    n: int,
)
    ensures
        inputs_for(rep, world, map, rule, rng, n).rng.seed == rng.seed,
    decreases n,
{
    if n > 0 {
        lemma_inputs_seed(rep, world, map, rule, rng, n - 1);
    }
}

/// Thinking keeps the seed of the random source.
pub proof fn lemma_think_seed(
    reps: Seq<Replicant>,
    world: &World,
    map: &CellMapper,
    rule: Survival,
    rng: RandomSource,
    n: int,
)
    ensures
        think_rng(reps, world, map, rule, rng, n).seed == rng.seed,
    decreases n,
{
    if n > 0 {
        lemma_think_seed(reps, world, map, rule, rng, n - 1);
        lemma_inputs_seed(
            &reps[n - 1],
            world,
            map,
            rule,
            think_rng(reps, world, map, rule, rng, n - 1),
            reps[n - 1].net@.sensors.len() as int,
        );
    }
}

impl Simulation {
    /// The plans that the agents make in this tick.
    pub open spec fn spec_plans(&self, rng: RandomSource) -> Seq<Seq<Action>> {
        Seq::new(
            self.replicants.len() as nat,
            |i: int| plan_of(self.replicants@, &self.world, &self.mapper, self.rule, rng, i),
        )
    }

    /// What agent `i` reads from its sensors.
    fn sense(&self, i: usize, rng: &mut RandomSource) -> (input: Vec<(Sensor, i32)>)
        requires
            i < self.replicants.len(),
            self.world.wf(),
            self.mapper.wf(),
        ensures
            (Sensed { input: input@, rng: *final(rng) }) == inputs_for(
                &self.replicants[i as int],
                &self.world,
                &self.mapper,
                self.rule,
                *old(rng),
                self.replicants[i as int].net@.sensors.len() as int,
            ),
    {
        let mut input: Vec<(Sensor, i32)> = Vec::new();
        let m: usize = self.replicants[i].net.sensors.len();
        let mut k: usize = 0;
        while k < m
            invariant
                k <= m,
                i < self.replicants.len(),
                m == self.replicants[i as int].net@.sensors.len(),
                self.world.wf(),
                self.mapper.wf(),
                (Sensed { input: input@, rng: *rng }) == inputs_for(
                    &self.replicants[i as int],
                    &self.world,
                    &self.mapper,
                    self.rule,
                    *old(rng),
                    k as int,
                ),
            decreases m - k,
        {
            let sensor = self.replicants[i].net.sensors[k].0;
            let value = read(sensor, &self.replicants[i], &self.world, &self.mapper, self.rule, rng);
            input.push((sensor, value));
            k += 1;
        }
        input
    }

    /// Lets every agent sense and think: its sensors are read against the
    /// grid as it stands, its network runs one step on them, and the actions
    /// that fire are the agent's plan. No agent moves yet, so all of them
    /// read the same grid. Every agent grows one tick older.
    pub fn think(&mut self, rng: &mut RandomSource) -> (plans: Vec<Vec<Action>>)
        requires
            old(self).world.wf(),
            old(self).mapper.wf(),
            old(self).nets_wf(),
            forall|i: int|
                0 <= i < old(self).replicants.len() ==> (#[trigger] old(self).replicants[i]).time
                    < usize::MAX,
        ensures
            final(self).world == old(self).world,
            final(self).rule == old(self).rule,
            final(self).mapper == old(self).mapper,
            final(self).replicants.len() == old(self).replicants.len(),
            final(self).nets_wf(),
            plans.len() == old(self).replicants.len(),
            plan_views(plans@) == old(self).spec_plans(*old(rng)),
            *final(rng) == think_rng(
                old(self).replicants@,
                &old(self).world,
                &old(self).mapper,
                old(self).rule,
                *old(rng),
                old(self).replicants.len() as int,
            ),
            forall|i: int|
                0 <= i < final(self).replicants.len() ==> {
                    &&& (#[trigger] final(self).replicants[i]).net@ == ticked(
                        sensed(
                            old(self).replicants[i].net@,
                            input_of(
                                old(self).replicants@,
                                &old(self).world,
                                &old(self).mapper,
                                old(self).rule,
                                *old(rng),
                                i,
                            ),
                        ),
                    )
                    &&& final(self).replicants[i].pos == old(self).replicants[i].pos
                    &&& final(self).replicants[i].moves == old(self).replicants[i].moves
                    &&& final(self).replicants[i].time == old(self).replicants[i].time + 1
                },
            forall|i: int| 0 <= i < plans.len() ==> (#[trigger] plans@[i]).len() <= 4,
    {
        let ghost reps0 = self.replicants@;
        let ghost rng0 = *rng;
        let ghost world = self.world;
        let ghost map = self.mapper;
        let ghost rule = self.rule;
        let n: usize = self.replicants.len();
        let mut plans: Vec<Vec<Action>> = Vec::new();
        let mut i: usize = 0;
        while i < n
            invariant
                i <= n,
                n == reps0.len(),
                n == self.replicants.len(),
                self.world == old(self).world,
                self.rule == rule,
                self.mapper == old(self).mapper,
                self.world.wf(),
                self.mapper.wf(),
                plans.len() == i,
                world == self.world,
                map == self.mapper,
                *rng == think_rng(reps0, &world, &map, rule, rng0, i as int),
                forall|k: int| i <= k < n ==> #[trigger] self.replicants[k] == reps0[k],
                forall|k: int| 0 <= k < n ==> (#[trigger] reps0[k]).net.wf(),
                forall|k: int| 0 <= k < n ==> (#[trigger] reps0[k]).time < usize::MAX,
                forall|k: int|
                    0 <= k < i ==> {
                        &&& (#[trigger] self.replicants[k]).net@ == ticked(
                            sensed(reps0[k].net@, input_of(reps0, &world, &map, rule, rng0, k)),
                        )
                        &&& self.replicants[k].net.wf()
                        &&& self.replicants[k].pos == reps0[k].pos
                        &&& self.replicants[k].moves == reps0[k].moves
                        &&& self.replicants[k].time == reps0[k].time + 1
                    },
                forall|k: int|
                    0 <= k < i ==> (#[trigger] plans@[k])@ == plan_of(
                        reps0,
                        &world,
                        &map,
                        rule,
                        rng0,
                        k,
                    ) && plans@[k].len() <= 4,
            decreases n - i,
        {
            assert(self.replicants[i as int] == reps0[i as int]);
            let input = self.sense(i, rng);
            assert(input@ == input_of(reps0, &world, &map, rule, rng0, i as int));
            let plan = self.replicants[i].net.tick(&input);
            assert(plan@ == plan_of(reps0, &world, &map, rule, rng0, i as int));
            self.replicants[i].time += 1;
            let ghost listed = plans@;
            plans.push(plan);
            proof {
                assert forall|k: int| 0 <= k < i + 1 implies (#[trigger] plans@[k])@ == plan_of(
                    reps0,
                    &world,
                    &map,
                    rule,
                    rng0,
                    k,
                ) && plans@[k].len() <= 4 by {
                    if k < i {
                        assert(plans@[k] == listed[k]);
                    } else {
                        assert(plans@[k] == plan);
                    }
                }
            }
            i += 1;
        }
        proof {
            assert(plan_views(plans@) =~= old(self).spec_plans(rng0));
        }
        plans
    }
}

} // verus!
