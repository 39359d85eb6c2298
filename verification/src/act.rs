//! The act phase of a tick: the agents carry out their plans one after the
//! other.

use crate::actions::Action;
use crate::replicant::cell_at_offset;
use crate::replicant::offset_cell;
use crate::replicant::Replicant;
use crate::simulation::Cell;
use crate::simulation::clip_wf;
use crate::simulation::group;
use crate::simulation::lemma_wrapped_twice;
use crate::simulation::placed;
use crate::simulation::Simulation;
use crate::simulation::wrapped;
use crate::world::World;
use vstd::prelude::*;

verus! {

/// Where a step from `pos` leads: nowhere if the coordinates cannot be
/// written or if, on a grid that does not wrap, the step would leave the
/// world; else the cell one step on, wrapped if the grid wraps.
pub open spec fn step_target(
    world: &World,
    clip: Option<(i32, i32)>,
    pos: Cell,
    action: Action,
) -> Option<Cell> {
    match cell_at_offset(pos, action.spec_offset().0 as int, action.spec_offset().1 as int) {
        None => None,
        Some(c) => if clip.is_none() && !(0 <= c.0 < world.width && 0 <= c.1 < world.height) {
            None
        } else {
            Some(wrapped(clip, c))
        },
    }
}

/// An agent on its way: the cells, where the agent is, and the steps it has
/// made.
pub struct Walk {
    pub cells: Map<Cell, usize>,
    pub pos: Cell,
    pub moves: int,
}

/// The walk after one action: the agent moves if the step leads somewhere
/// and the cell there is free, and stays where it is if not.
pub open spec fn stepped(
    world: &World,
    clip: Option<(i32, i32)>,
    walk: Walk,
    group: usize,
    action: Action,
) -> Walk {
    match step_target(world, clip, walk.pos, action) {
        None => walk,
        Some(c) => if walk.cells.contains_key(c) {
            walk
        } else {
            Walk {
                cells: walk.cells.remove(wrapped(clip, walk.pos)).insert(c, group),
                pos: c,
                moves: walk.moves + 1,
            }
        },
    }
}

/// The walk after the first `n` actions of a plan, one after the other.
pub open spec fn walked(
    world: &World,
    clip: Option<(i32, i32)>,
    walk: Walk,
    group: usize,
    plan: Seq<Action>,
    n: int,
) -> Walk
    decreases n,
{
    if n <= 0 {
        walk
    } else {
        stepped(world, clip, walked(world, clip, walk, group, plan, n - 1), group, plan[n - 1])
    }
}

/// The grid with its agents: the cells, and for every agent its place and
/// the steps it has made.
pub struct Field {
    pub cells: Map<Cell, usize>,
    pub pos: Seq<Cell>,
    pub moves: Seq<int>,
}

/// The field after the first `n` agents have carried out their plans, one
/// agent after the other in the order of the population, so that every
/// agent sees the moves of those before it.
pub open spec fn acted(
    world: &World,
    clip: Option<(i32, i32)>,
    groups: Seq<usize>,
    field: Field,
    plans: Seq<Seq<Action>>,
    n: int,
) -> Field
    decreases n,
{
    if n <= 0 {
        field
    } else {
        let before = acted(world, clip, groups, field, plans, n - 1);
        let walk = walked(
            world,
            clip,
            Walk { cells: before.cells, pos: before.pos[n - 1], moves: before.moves[n - 1] },
            groups[n - 1],
            plans[n - 1],
            plans[n - 1].len() as int,
        );
        Field {
            cells: walk.cells,
            pos: before.pos.update(n - 1, walk.pos),
            moves: before.moves.update(n - 1, walk.moves),
        }
    }
}

/// The field of a population.
pub open spec fn field_of(cells: Map<Cell, usize>, reps: Seq<Replicant>) -> Field {
    Field {
        cells,
        pos: Seq::new(reps.len(), |i: int| reps[i].pos),
        moves: Seq::new(reps.len(), |i: int| reps[i].moves as int),
    }
}

/// The groups of a population.
pub open spec fn groups_of(reps: Seq<Replicant>) -> Seq<usize> {
    Seq::new(reps.len(), |i: int| group(&reps[i]))
}

/// In a field, every agent holds its cell under its group, no two agents
/// hold the same cell, and every cell is written as the grid wraps it.
pub open spec fn field_placed(clip: Option<(i32, i32)>, field: Field, groups: Seq<usize>) -> bool {
    &&& field.pos.len() == groups.len()
    &&& field.moves.len() == groups.len()
    &&& forall|i: int|
        0 <= i < groups.len() ==> field.cells.contains_key(#[trigger] field.pos[i])
            && field.cells[field.pos[i]] == groups[i] && wrapped(clip, field.pos[i])
            == field.pos[i]
    &&& forall|i: int, j: int|
        0 <= i < j < groups.len() ==> #[trigger] field.pos[i] != #[trigger] field.pos[j]
}

/// A step of one agent leaves every agent on a cell of its own.
pub proof fn lemma_stepped_placed(
    world: &World,
    clip: Option<(i32, i32)>,
    field: Field,
    groups: Seq<usize>,
    i: int,
    action: Action,
)
    requires
        clip_wf(clip),
        field_placed(clip, field, groups),
        0 <= i < groups.len(),
    ensures
        ({
            let walk = stepped(
                world,
                clip,
                Walk { cells: field.cells, pos: field.pos[i], moves: field.moves[i] },
                groups[i],
                action,
            );
            field_placed(
                clip,
                Field {
                    cells: walk.cells,
                    pos: field.pos.update(i, walk.pos),
                    moves: field.moves.update(i, walk.moves),
                },
                groups,
            )
        }),
{
    let start = Walk { cells: field.cells, pos: field.pos[i], moves: field.moves[i] };
    let walk = stepped(world, clip, start, groups[i], action);
    let after = Field {
        cells: walk.cells,
        pos: field.pos.update(i, walk.pos),
        moves: field.moves.update(i, walk.moves),
    };
    if walk.pos != start.pos || walk.cells != start.cells {
        let c = walk.pos;
        assert(!field.cells.contains_key(c));
        assert(wrapped(clip, start.pos) == start.pos);
        let to = cell_at_offset(
            start.pos,
            action.spec_offset().0 as int,
            action.spec_offset().1 as int,
        ).unwrap();
        lemma_wrapped_twice(clip, to);
        assert(wrapped(clip, c) == c);
        assert forall|k: int| 0 <= k < groups.len() implies after.cells.contains_key(
            #[trigger] after.pos[k],
        ) && after.cells[after.pos[k]] == groups[k] by {
            if k != i {
                assert(field.cells.contains_key(field.pos[k]));
                assert(field.pos[k] != field.pos[i]);
            }
        }
        assert forall|k: int, j: int| 0 <= k < j < groups.len() implies #[trigger] after.pos[k]
            != #[trigger] after.pos[j] by {
            assert(field.pos[k] != field.pos[j]);
            assert(field.cells.contains_key(field.pos[k]));
            assert(field.cells.contains_key(field.pos[j]));
        }
    } else {
        assert(after.pos =~= field.pos);
    }
}

/// The plans of a population as values.
pub open spec fn plan_views(plans: Seq<Vec<Action>>) -> Seq<Seq<Action>> {
    plans.map_values(|p: Vec<Action>| p@)
}

/// Acting keeps the number of agents.
pub proof fn lemma_acted_len(
    world: &World,
    clip: Option<(i32, i32)>,
    groups: Seq<usize>,
    field: Field,
    plans: Seq<Seq<Action>>,
    n: int,
)
    requires
        0 <= n <= field.pos.len(),
        field.pos.len() == field.moves.len(),
    ensures
        acted(world, clip, groups, field, plans, n).pos.len() == field.pos.len(),
        acted(world, clip, groups, field, plans, n).moves.len() == field.moves.len(),
        forall|k: int|
            n <= k < field.pos.len() ==> acted(world, clip, groups, field, plans, n).pos[k]
                == field.pos[k] && acted(world, clip, groups, field, plans, n).moves[k]
                == field.moves[k],
    decreases n,
{
    if n > 0 {
        lemma_acted_len(world, clip, groups, field, plans, n - 1);
    }
}

/// A walk makes at most one step for each action.
pub proof fn lemma_walked_moves(
    world: &World,
    clip: Option<(i32, i32)>,
    walk: Walk,
    group: usize,
    plan: Seq<Action>,
    n: int,
)
    requires
        0 <= n,
    ensures
        walk.moves <= walked(world, clip, walk, group, plan, n).moves <= walk.moves + n,
    decreases n,
{
    if n > 0 {
        lemma_walked_moves(world, clip, walk, group, plan, n - 1);
    }
}

/// Acting adds to an agent's steps at most one for each action of its plan.
pub proof fn lemma_acted_moves(
    world: &World,
    clip: Option<(i32, i32)>,
    groups: Seq<usize>,
    field: Field,
    plans: Seq<Seq<Action>>,
    n: int,
    i: int,
)
    requires
        0 <= n <= field.pos.len(),
        field.pos.len() == field.moves.len(),
        plans.len() == field.pos.len(),
        0 <= i < field.pos.len(),
    ensures
        field.moves[i] <= acted(world, clip, groups, field, plans, n).moves[i] <= field.moves[i]
            + plans[i].len(),
    decreases n,
{
    if n > 0 {
        lemma_acted_moves(world, clip, groups, field, plans, n - 1, i);
        lemma_acted_len(world, clip, groups, field, plans, n - 1);
        let before = acted(world, clip, groups, field, plans, n - 1);
        if i == n - 1 {
            lemma_walked_moves(
                world,
                clip,
                Walk { cells: before.cells, pos: before.pos[n - 1], moves: before.moves[n - 1] },
                groups[n - 1],
                plans[n - 1],
                plans[n - 1].len() as int,
            );
        }
    }
}

impl Simulation {
    /// The field after the agents have carried out the plans.
    pub open spec fn spec_acted(&self, plans: Seq<Seq<Action>>) -> Field {
        acted(
            &self.world,
            self.mapper.spec_clip(),
            groups_of(self.replicants@),
            field_of(self.mapper@, self.replicants@),
            plans,
            self.replicants.len() as int,
        )
    }

    /// Carries out the plans, one agent after the other in the order of the
    /// population. Each action is a step of one cell; the agent makes it if
    /// the cell is free and, on a grid that does not wrap, inside the world,
    /// and counts it. No two agents ever come to hold the same cell.
    pub fn act(&mut self, plans: &Vec<Vec<Action>>)
        requires
            old(self).mapper.wf(),
            plans.len() == old(self).replicants.len(),
            forall|i: int|
                0 <= i < plans.len() ==> (#[trigger] plans[i]).len() + old(self).replicants[i].moves
                    <= usize::MAX,
        ensures
            final(self).world == old(self).world,
            final(self).rule == old(self).rule,
            final(self).mapper.spec_clip() == old(self).mapper.spec_clip(),
            final(self).replicants.len() == old(self).replicants.len(),
            final(self).mapper@ == old(self).spec_acted(plan_views(plans@)).cells,
            forall|i: int|
                0 <= i < final(self).replicants.len() ==> {
                    &&& (#[trigger] final(self).replicants[i]).pos == old(self).spec_acted(
                        plan_views(plans@),
                    ).pos[i]
                    &&& final(self).replicants[i].moves == old(self).spec_acted(
                        plan_views(plans@),
                    ).moves[i]
                    &&& final(self).replicants[i].net == old(self).replicants[i].net
                    &&& final(self).replicants[i].time == old(self).replicants[i].time
                },
            placed(
                old(self).mapper.spec_clip(),
                old(self).mapper@,
                old(self).replicants@,
                old(self).replicants.len() as int,
            )
                ==> placed(
                final(self).mapper.spec_clip(),
                final(self).mapper@,
                final(self).replicants@,
                final(self).replicants.len() as int,
            ),
    {
        let ghost world = self.world;
        let ghost clip = self.mapper.spec_clip();
        let ghost reps0 = self.replicants@;
        let ghost groups = groups_of(reps0);
        let ghost field0 = field_of(self.mapper@, reps0);
        let ghost all = plan_views(plans@);
        let ghost was_placed = placed(self.mapper.spec_clip(), self.mapper@, reps0, reps0.len() as int);
        let n: usize = self.replicants.len();
        proof {
            if was_placed {
                assert(field_placed(clip, field0, groups));
            }
        }
        let mut i: usize = 0;
        while i < n
            invariant
                i <= n,
                n == reps0.len(),
                n == plans.len(),
                n == self.replicants.len(),
                self.world == world,
                self.rule == old(self).rule,
                self.mapper.wf(),
                self.mapper.spec_clip() == clip,
                all == plan_views(plans@),
                groups == groups_of(reps0),
                field0.pos.len() == n,
                field0.moves.len() == n,
                forall|k: int|
                    0 <= k < n ==> (#[trigger] plans[k]).len() + reps0[k].moves <= usize::MAX,
                self.mapper@ == acted(&world, clip, groups, field0, all, i as int).cells,
                forall|k: int|
                    0 <= k < n ==> {
                        &&& (#[trigger] self.replicants[k]).pos == acted(
                            &world,
                            clip,
                            groups,
                            field0,
                            all,
                            i as int,
                        ).pos[k]
                        &&& self.replicants[k].moves == acted(
                            &world,
                            clip,
                            groups,
                            field0,
                            all,
                            i as int,
                        ).moves[k]
                        &&& self.replicants[k].net == reps0[k].net
                        &&& self.replicants[k].time == reps0[k].time
                    },
                forall|k: int|
                    0 <= k < n ==> #[trigger] field0.moves[k] == reps0[k].moves && field0.pos[k]
                        == reps0[k].pos,
                was_placed ==> field_placed(
                    clip,
                    acted(&world, clip, groups, field0, all, i as int),
                    groups,
                ),
            decreases n - i,
        {
            let ghost before = acted(&world, clip, groups, field0, all, i as int);
            let ghost plan = all[i as int];
            proof {
                lemma_acted_len(&world, clip, groups, field0, all, i as int);
                assert(before.pos[i as int] == field0.pos[i as int]);
                assert(before.moves[i as int] == field0.moves[i as int]);
                assert(field0.moves[i as int] == reps0[i as int].moves);
                assert(plan == plans[i as int]@);
                assert(groups[i as int] == group(&reps0[i as int]));
            }
            let own = self.replicants[i].net.pool();
            let ghost start = Walk {
                cells: before.cells,
                pos: before.pos[i as int],
                moves: before.moves[i as int],
            };
            let m: usize = plans[i].len();
            let mut j: usize = 0;
            while j < m
                invariant
                    j <= m,
                    i < n,
                    n == reps0.len(),
                    n == plans.len(),
                    n == self.replicants.len(),
                    m == plans[i as int].len(),
                    plan == plans[i as int]@,
                    self.world == world,
                    self.rule == old(self).rule,
                    self.mapper.wf(),
                    self.mapper.spec_clip() == clip,
                    own == groups[i as int],
                    groups.len() == n,
                    before.pos.len() == n,
                    before.moves.len() == n,
                    start == (Walk {
                        cells: before.cells,
                        pos: before.pos[i as int],
                        moves: before.moves[i as int],
                    }),
                    start.moves == reps0[i as int].moves,
                    m + reps0[i as int].moves <= usize::MAX,
                    (Walk {
                        cells: self.mapper@,
                        pos: self.replicants[i as int].pos,
                        moves: self.replicants[i as int].moves as int,
                    }) == walked(&world, clip, start, own, plan, j as int),
                    self.replicants[i as int].moves <= reps0[i as int].moves + j,
                    forall|k: int|
                        0 <= k < n && k != i ==> {
                            &&& (#[trigger] self.replicants[k]).pos == before.pos[k]
                            &&& self.replicants[k].moves == before.moves[k]
                        },
                    forall|k: int|
                        0 <= k < n ==> {
                            &&& (#[trigger] self.replicants[k]).net == reps0[k].net
                            &&& self.replicants[k].time == reps0[k].time
                        },
                    was_placed ==> field_placed(
                        clip,
                        Field {
                            cells: self.mapper@,
                            pos: before.pos.update(i as int, self.replicants[i as int].pos),
                            moves: before.moves.update(
                                i as int,
                                self.replicants[i as int].moves as int,
                            ),
                        },
                        groups,
                    ),
                decreases m - j,
            {
                let action = plans[i][j];
                let d = action.offset();
                let from = self.replicants[i].pos;
                let ghost now = Field {
                    cells: self.mapper@,
                    pos: before.pos.update(i as int, self.replicants[i as int].pos),
                    moves: before.moves.update(i as int, self.replicants[i as int].moves as int),
                };
                proof {
                    if was_placed {
                        lemma_stepped_placed(&world, clip, now, groups, i as int, action);
                    }
                }
                match offset_cell(from, d.0, d.1) {
                    None => {},
                    Some(c) => {
                        let inside = self.mapper.clip().is_some() || (0 <= c.0 && c.0
                            < self.world.width && 0 <= c.1 && c.1 < self.world.height);
                        if inside {
                            let moved = self.mapper.move_abs(&mut self.replicants[i].pos, c, own);
                            if moved {
                                self.replicants[i].moves += 1;
                            }
                        }
                    },
                }
                proof {
                    let after = stepped(
                        &world,
                        clip,
                        Walk { cells: now.cells, pos: now.pos[i as int], moves: now.moves[i as int] },
                        own,
                        action,
                    );
                    assert(after.cells == self.mapper@);
                    assert(after.pos == self.replicants[i as int].pos);
                    assert(after.moves == self.replicants[i as int].moves);
                    assert(now.pos.update(i as int, after.pos) =~= before.pos.update(
                        i as int,
                        after.pos,
                    ));
                    assert(now.moves.update(i as int, after.moves) =~= before.moves.update(
                        i as int,
                        after.moves,
                    ));
                }
                j += 1;
            }
            proof {
                let next = acted(&world, clip, groups, field0, all, i + 1);
                assert(next.cells == self.mapper@);
                assert(next.pos == before.pos.update(i as int, self.replicants[i as int].pos));
            }
            i += 1;
        }
        proof {
            let last = acted(&world, clip, groups, field0, all, n as int);
            if was_placed {
                assert forall|k: int| 0 <= k < n implies self.mapper@.contains_key(
                    (#[trigger] self.replicants@[k]).pos,
                ) && self.mapper@[self.replicants@[k].pos] == group(&self.replicants@[k]) by {
                    assert(last.cells.contains_key(last.pos[k]));
                    assert(groups[k] == group(&reps0[k]));
                }
                assert forall|a: int, b: int| 0 <= a < b < n implies (
                #[trigger] self.replicants@[a]).pos != (#[trigger] self.replicants@[b]).pos by {
                    assert(last.pos[a] != last.pos[b]);
                }
            }
        }
    }
}

} // verus!
