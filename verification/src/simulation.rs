//! The occupancy index of the grid and the simulation that ticks over it.

use crate::act::field_of;
use crate::act::groups_of;
use crate::act::lemma_acted_moves;
use crate::act::plan_views;
use crate::net::group_of;
use crate::net::sensed;
use crate::net::ticked;
use crate::replicant::Replicant;
use crate::replicant::Survival;
use crate::rng::RandomSource;
use crate::think::input_of;
use crate::think::think_rng;
use crate::world::World;
use std::collections::HashMap;
use vstd::prelude::*;

verus! {

broadcast use vstd::std_specs::hash::group_hash_axioms;

/// A cell of the grid.
pub type Cell = (i32, i32);

/// The coordinate `x` brought into `0..w` by Euclidean remainder.
pub open spec fn wrap(x: int, w: int) -> int
    recommends
        w > 0,
{
    x % w
}

/// The key under which a cell is filed: the two coordinates, each shifted to
/// be non-negative, side by side in one word.
pub open spec fn cell_key(c: Cell) -> u64 {
    ((c.0 + 0x8000_0000) * 0x1_0000_0000 + (c.1 + 0x8000_0000)) as u64
}

/// Different cells are filed under different keys.
pub proof fn lemma_cell_key_injective(a: Cell, b: Cell)
    ensures
        cell_key(a) == cell_key(b) <==> a == b,
{
}

/// A torus has positive sides.
pub open spec fn clip_wf(clip: Option<(i32, i32)>) -> bool {
    match clip {
        Some((w, h)) => w > 0 && h > 0,
        None => true,
    }
}

/// Where a cell lies on a torus of the given sides; without a torus it lies
/// where it is.
pub open spec fn wrapped(clip: Option<(i32, i32)>, c: Cell) -> Cell {
    match clip {
        None => c,
        Some((w, h)) => (wrap(c.0 as int, w as int) as i32, wrap(c.1 as int, h as int) as i32),
    }
}

/// Which cells of the grid are taken, and by which group.
///
/// With `clip` set to a width and a height the grid is a torus: every
/// coordinate that comes in is first wrapped into it.
pub struct CellMapper {
    clip: Option<(i32, i32)>,
    filled_cells: HashMap<u64, usize>,
}

impl View for CellMapper {
    type V = Map<Cell, usize>;

    /// The owner of every taken cell.
    closed spec fn view(&self) -> Map<Cell, usize> {
        Map::new(
            |c: Cell| self.filled_cells@.contains_key(cell_key(c)),
            |c: Cell| self.filled_cells@[cell_key(c)],
        )
    }
}

impl CellMapper {
    /// The sides of the torus, if the grid is one.
    pub closed spec fn spec_clip(&self) -> Option<(i32, i32)> {
        self.clip
    }

    /// A torus has positive sides.
    pub open spec fn wf(&self) -> bool {
        clip_wf(self.spec_clip())
    }

    /// Where a cell lies once the torus, if there is one, has been applied.
    pub open spec fn spec_normalize(&self, c: Cell) -> Cell {
        wrapped(self.spec_clip(), c)
    }

    /// An index with no cell taken.
    pub fn new(clip: Option<(i32, i32)>) -> (m: CellMapper)
        ensures
            m.spec_clip() == clip,
            m@ == Map::<Cell, usize>::empty(),
    {
        let m = CellMapper { clip, filled_cells: HashMap::new() };
        assert(m@ =~= Map::<Cell, usize>::empty());
        m
    }

    /// The sides of the torus, if the grid is one.
    pub fn clip(&self) -> (c: Option<(i32, i32)>)
        ensures
            c == self.spec_clip(),
    {
        self.clip
    }

    /// Makes the grid a torus of the given sides, or an unbounded plane.
    /// The cells that are taken stay as they are filed.
    pub fn set_clip(&mut self, clip: Option<(i32, i32)>)
        ensures
            final(self).spec_clip() == clip,
            final(self)@ == old(self)@,
    {
        self.clip = clip;
    }

    /// The group that holds the cell as it is written, without wrapping.
    pub fn holds(&self, c: Cell) -> (owner: Option<usize>)
        ensures
            owner == if self@.contains_key(c) {
                Some(self@[c])
            } else {
                None::<usize>
            },
    {
        match self.filled_cells.get(&pack(c)) {
            None => None,
            Some(owner) => Some(*owner),
        }
    }

    /// Frees every cell.
    pub fn reset(&mut self)
        ensures
            final(self)@ == Map::<Cell, usize>::empty(),
            final(self).spec_clip() == old(self).spec_clip(),
    {
        self.filled_cells.clear();
        assert(self@ =~= Map::<Cell, usize>::empty());
    }

    /// Wraps a cell into the torus; without a torus the cell is left as it is.
    pub fn normalize(&self, x: i32, y: i32) -> (c: Cell)
        requires
            self.wf(),
        ensures
            c == self.spec_normalize((x, y)),
    {
        match self.clip {
            None => (x, y),
            Some((w, h)) => (wrap_coordinate(x, w), wrap_coordinate(y, h)),
        }
    }

    /// Whether the cell is taken.
    pub fn has(&self, x: i32, y: i32) -> (b: bool)
        requires
            self.wf(),
        ensures
            b == self@.contains_key(self.spec_normalize((x, y))),
    {
        let c = self.normalize(x, y);
        self.filled_cells.contains_key(&pack(c))
    }

    /// Whether the cell is taken by the group `pool`.
    pub fn is(&self, x: i32, y: i32, pool: usize) -> (b: bool)
        requires
            self.wf(),
        ensures
            b == (self@.contains_key(self.spec_normalize((x, y))) && self@[self.spec_normalize(
                (x, y),
            )] == pool),
    {
        let c = self.normalize(x, y);
        match self.filled_cells.get(&pack(c)) {
            None => false,
            Some(owner) => *owner == pool,
        }
    }

    /// Whether the cell is taken by a group other than `pool`.
    pub fn isexcept(&self, x: i32, y: i32, pool: usize) -> (b: bool)
        requires
            self.wf(),
        ensures
            b == (self@.contains_key(self.spec_normalize((x, y))) && self@[self.spec_normalize(
                (x, y),
            )] != pool),
    {
        let c = self.normalize(x, y);
        match self.filled_cells.get(&pack(c)) {
            None => false,
            Some(owner) => *owner != pool,
        }
    }

    /// Moves the occupant of `current_pos` by the offset `position`.
    pub fn move_rel(&mut self, current_pos: &mut Cell, position: Cell, pool: usize) -> (moved: bool)
        requires
            old(self).wf(),
            i32::MIN <= old(current_pos).0 + position.0 <= i32::MAX,
            i32::MIN <= old(current_pos).1 + position.1 <= i32::MAX,
        ensures
            final(self).spec_clip() == old(self).spec_clip(),
            moved == !old(self)@.contains_key(
                old(self).spec_normalize(
                    ((old(current_pos).0 + position.0) as i32, (old(current_pos).1 + position.1) as i32),
                ),
            ),
            moved ==> *final(current_pos) == old(self).spec_normalize(
                ((old(current_pos).0 + position.0) as i32, (old(current_pos).1 + position.1) as i32),
            ) && final(self)@ == old(self)@.remove(
                old(self).spec_normalize(*old(current_pos)),
            ).insert(*final(current_pos), pool),
            !moved ==> *final(current_pos) == *old(current_pos) && final(self)@ == old(self)@,
    {
        let final_pos = (current_pos.0 + position.0, current_pos.1 + position.1);
        self.move_abs(current_pos, final_pos, pool)
    }

    /// Moves the occupant of `current_pos` to `final_pos` if that cell is
    /// free: the old cell is vacated and the new one taken in one step.
    /// If the destination is taken nothing changes. Both cells are wrapped
    /// first if the grid wraps.
    pub fn move_abs(&mut self, current_pos: &mut Cell, final_pos: Cell, pool: usize) -> (moved:
        bool)
        requires
            old(self).wf(),
        ensures
            final(self).spec_clip() == old(self).spec_clip(),
            moved == !old(self)@.contains_key(old(self).spec_normalize(final_pos)),
            moved ==> *final(current_pos) == old(self).spec_normalize(final_pos) && final(self)@
                == old(self)@.remove(old(self).spec_normalize(*old(current_pos))).insert(
                *final(current_pos),
                pool,
            ),
            !moved ==> *final(current_pos) == *old(current_pos) && final(self)@ == old(self)@,
    {
        let to = self.normalize(final_pos.0, final_pos.1);
        if self.filled_cells.contains_key(&pack(to)) {
            false
        } else {
            let from = self.normalize(current_pos.0, current_pos.1);
            self.filled_cells.remove(&pack(from));
            self.filled_cells.insert(pack(to), pool);
            *current_pos = to;
            proof {
                assert forall|c: Cell|
                    cell_key(c) == cell_key(from) <==> c == from by {
                    lemma_cell_key_injective(c, from);
                }
                assert forall|c: Cell| cell_key(c) == cell_key(to) <==> c == to by {
                    lemma_cell_key_injective(c, to);
                }
                assert(self@ =~= old(self)@.remove(from).insert(to, pool));
            }
            true
        }
    }

    /// Takes the cell `final_pos` for a newcomer if it is free, and notes the
    /// cell in `current_pos`. If the cell is taken nothing changes.
    pub fn add_abs(&mut self, current_pos: &mut Cell, final_pos: Cell, pool: usize) -> (added:
        bool)
        requires
            old(self).wf(),
        ensures
            final(self).spec_clip() == old(self).spec_clip(),
            added == !old(self)@.contains_key(old(self).spec_normalize(final_pos)),
            added ==> *final(current_pos) == old(self).spec_normalize(final_pos) && final(self)@
                == old(self)@.insert(*final(current_pos), pool),
            !added ==> *final(current_pos) == *old(current_pos) && final(self)@ == old(self)@,
    {
        let to = self.normalize(final_pos.0, final_pos.1);
        if self.filled_cells.contains_key(&pack(to)) {
            false
        } else {
            self.filled_cells.insert(pack(to), pool);
            *current_pos = to;
            proof {
                assert forall|c: Cell| cell_key(c) == cell_key(to) <==> c == to by {
                    lemma_cell_key_injective(c, to);
                }
                assert(self@ =~= old(self)@.insert(to, pool));
            }
            true
        }
    }
}

/// The key of a cell, computed.
fn pack(c: Cell) -> (k: u64)
    ensures
        k == cell_key(c),
{
    let hi: u64 = (c.0 as i64 + 0x8000_0000) as u64;
    let lo: u64 = (c.1 as i64 + 0x8000_0000) as u64;
    hi * 0x1_0000_0000 + lo
}

/// One coordinate wrapped into `0..w`.
fn wrap_coordinate(x: i32, w: i32) -> (r: i32)
    requires
        w > 0,
    ensures
        r == wrap(x as int, w as int),
        0 <= r < w,
{
    if x >= 0 {
        x % w
    } else {
        let below: i32 = -(x + 1);
        let r: i32 = below % w;
        proof {
            lemma_wrap_negative(x as int, w as int);
        }
        w - 1 - r
    }
}

/// The remainder of a negative number, from that of a non-negative one.
proof fn lemma_wrap_negative(x: int, w: int)
    requires
        x < 0,
        w > 0,
    ensures
        x % w == w - 1 - ((-(x + 1)) % w),
{
    let b = -(x + 1);
    let q = b / w;
    let r = b % w;
    assert(b == q * w + r && 0 <= r < w) by (nonlinear_arith)
        requires
            q == b / w,
            r == b % w,
            w > 0,
    ;
    assert(x == (-q - 1) * w + (w - 1 - r)) by (nonlinear_arith)
        requires
            b == q * w + r,
            b == -(x + 1),
    ;
    vstd::arithmetic::div_mod::lemma_fundamental_div_mod_converse(x, w, -q - 1, w - 1 - r);
}

/// The group of an agent: that of its colour.
pub open spec fn group(rep: &Replicant) -> usize {
    group_of(rep.net@.genome.color) as usize
}

/// The first `n` agents each hold their cell, recorded under their group,
/// no two of them hold the same cell, and every cell is written as the grid
/// wraps it.
pub open spec fn placed(
    clip: Option<(i32, i32)>,
    cells: Map<Cell, usize>,
    reps: Seq<Replicant>,
    n: int,
) -> bool {
    &&& forall|i: int|
        0 <= i < n ==> cells.contains_key((#[trigger] reps[i]).pos) && cells[reps[i].pos] == group(
            &reps[i],
        ) && wrapped(clip, reps[i].pos) == reps[i].pos
    &&& forall|i: int, j: int|
        0 <= i < j < n ==> (#[trigger] reps[i]).pos != (#[trigger] reps[j]).pos
}

/// A wrapped cell lies where it is.
pub proof fn lemma_wrapped_twice(clip: Option<(i32, i32)>, c: Cell)
    requires
        clip_wf(clip),
    ensures
        wrapped(clip, wrapped(clip, c)) == wrapped(clip, c),
{
    match clip {
        None => {},
        Some((w, h)) => {
            vstd::arithmetic::div_mod::lemma_mod_bound(c.0 as int, w as int);
            vstd::arithmetic::div_mod::lemma_mod_bound(c.1 as int, h as int);
            vstd::arithmetic::div_mod::lemma_mod_twice(c.0 as int, w as int);
            vstd::arithmetic::div_mod::lemma_mod_twice(c.1 as int, h as int);
        },
    }
}

/// A population on a grid.
pub struct Simulation {
    /// The extent of the world.
    pub world: World,
    /// The agents, in the order in which they act.
    pub replicants: Vec<Replicant>,
    /// Which cells are taken.
    pub mapper: CellMapper,
    /// Who survives a round.
    pub rule: Survival,
}

impl Simulation {
    /// The networks are well formed.
    pub open spec fn nets_wf(&self) -> bool {
        forall|i: int| 0 <= i < self.replicants.len() ==> (#[trigger] self.replicants[i]).net.wf()
    }

    /// The world has cells, the networks are well formed, and every agent
    /// holds a cell of its own in the index.
    pub open spec fn wf(&self) -> bool {
        &&& self.world.wf()
        &&& self.mapper.wf()
        &&& self.nets_wf()
        &&& placed(
            self.mapper.spec_clip(),
            self.mapper@,
            self.replicants@,
            self.replicants.len() as int,
        )
    }

    /// `post` and `rng_after` are what one tick makes of this simulation and
    /// of `rng`: every network has run one step on what its agent sensed of
    /// the grid as it stood, every agent is one tick older, and the agents
    /// have carried out their plans one after the other.
    pub open spec fn ticks_to(
        &self,
        rng: RandomSource,
        post: &Simulation,
        rng_after: RandomSource,
    ) -> bool {
        &&& post.world == self.world
        &&& post.rule == self.rule
        &&& post.mapper.spec_clip() == self.mapper.spec_clip()
        &&& post.replicants.len() == self.replicants.len()
        &&& rng_after == think_rng(
            self.replicants@,
            &self.world,
            &self.mapper,
            self.rule,
            rng,
            self.replicants.len() as int,
        )
        &&& post.mapper@ == self.spec_acted(self.spec_plans(rng)).cells
        &&& forall|i: int|
            0 <= i < post.replicants.len() ==> {
                &&& (#[trigger] post.replicants[i]).net@ == ticked(
                    sensed(
                        self.replicants[i].net@,
                        input_of(self.replicants@, &self.world, &self.mapper, self.rule, rng, i),
                    ),
                )
                &&& post.replicants[i].pos == self.spec_acted(self.spec_plans(rng)).pos[i]
                &&& post.replicants[i].moves == self.spec_acted(self.spec_plans(rng)).moves[i]
                &&& post.replicants[i].time == self.replicants[i].time + 1
            }
    }

    /// One tick: every agent senses and thinks against the grid as it
    /// stands, then the agents act one after the other in the order of the
    /// population. Afterwards every agent still holds a cell of its own.
    pub fn tick(&mut self, rng: &mut RandomSource)
        requires
            old(self).wf(),
            forall|i: int|
                0 <= i < old(self).replicants.len() ==> (#[trigger] old(self).replicants[i]).time
                    < usize::MAX && old(self).replicants[i].moves <= usize::MAX - 4,
        ensures
            old(self).ticks_to(*old(rng), final(self), *final(rng)),
            final(self).wf(),
            final(self).world == old(self).world,
            final(self).rule == old(self).rule,
            final(self).mapper.spec_clip() == old(self).mapper.spec_clip(),
            final(self).replicants.len() == old(self).replicants.len(),
            *final(rng) == think_rng(
                old(self).replicants@,
                &old(self).world,
                &old(self).mapper,
                old(self).rule,
                *old(rng),
                old(self).replicants.len() as int,
            ),
            final(self).mapper@ == old(self).spec_acted(old(self).spec_plans(*old(rng))).cells,
            forall|i: int|
                0 <= i < final(self).replicants.len() ==> {
                    &&& (#[trigger] final(self).replicants[i]).net@ == ticked(
                        sensed(
                            old(self).replicants[i].net@,
                            input_of(
                                old(self).replicants@,
                                &old(self).world,
                                &old(self).mapper,
                                old(self).rule,
                                *old(rng),
                                i,
                            ),
                        ),
                    )
                    &&& final(self).replicants[i].pos == old(self).spec_acted(
                        old(self).spec_plans(*old(rng)),
                    ).pos[i]
                    &&& final(self).replicants[i].moves == old(self).spec_acted(
                        old(self).spec_plans(*old(rng)),
                    ).moves[i]
                    &&& final(self).replicants[i].moves <= old(self).replicants[i].moves + 4
                    &&& final(self).replicants[i].time == old(self).replicants[i].time + 1
                },
    {
        let ghost reps0 = self.replicants@;
        let plans = self.think(rng);
        let ghost reps1 = self.replicants@;
        proof {
            assert(groups_of(reps1) =~= groups_of(reps0));
            assert(field_of(self.mapper@, reps1).pos =~= field_of(self.mapper@, reps0).pos);
            assert(field_of(self.mapper@, reps1).moves =~= field_of(self.mapper@, reps0).moves);
            assert forall|i: int| 0 <= i < reps1.len() implies self.mapper@.contains_key(
                (#[trigger] reps1[i]).pos,
            ) && self.mapper@[reps1[i].pos] == group(&reps1[i]) by {
                assert(reps0[i].pos == reps1[i].pos);
                assert(group(&reps0[i]) == group(&reps1[i]));
            }
            assert forall|i: int, j: int| 0 <= i < j < reps1.len() implies (#[trigger] reps1[i]).pos
                != (#[trigger] reps1[j]).pos by {
                assert(reps0[i].pos != reps0[j].pos);
            }
        }
        self.act(&plans);
        proof {
            let field = old(self).spec_acted(old(self).spec_plans(*old(rng)));
            assert forall|i: int| 0 <= i < self.replicants.len() implies (
            #[trigger] self.replicants[i]).moves <= reps0[i].moves + 4 by {
                lemma_acted_moves(
                    &old(self).world,
                    old(self).mapper.spec_clip(),
                    groups_of(reps0),
                    field_of(old(self).mapper@, reps0),
                    old(self).spec_plans(*old(rng)),
                    reps0.len() as int,
                    i,
                );
                assert(plans@[i].len() <= 4);
                assert(plan_views(plans@)[i] == plans@[i]@);
            }
            assert forall|i: int| 0 <= i < self.replicants.len() implies (
            #[trigger] self.replicants[i]).net.wf() by {
                assert(self.replicants[i].net == reps1[i].net);
            }
        }
    }

    /// Whether every network is well formed.
    pub fn check_nets(&self) -> (ok: bool)
        ensures
            ok == self.nets_wf(),
    {
        let mut i: usize = 0;
        while i < self.replicants.len()
            invariant
                i <= self.replicants.len(),
                forall|k: int| 0 <= k < i ==> (#[trigger] self.replicants[k]).net.wf(),
            decreases self.replicants.len() - i,
        {
            if !self.replicants[i].net.check() {
                return false;
            }
            i += 1;
        }
        true
    }

    /// Whether every agent holds its cell in the index, under its group
    /// and written as the grid wraps it, and no two agents hold the same
    /// cell.
    pub fn check_placed(&self) -> (ok: bool)
        requires
            self.mapper.wf(),
        ensures
            ok == placed(
                self.mapper.spec_clip(),
                self.mapper@,
                self.replicants@,
                self.replicants.len() as int,
            ),
    {
        let ghost reps = self.replicants@;
        let ghost cells = self.mapper@;
        let n: usize = self.replicants.len();
        let mut i: usize = 0;
        while i < n
            invariant
                i <= n,
                n == reps.len(),
                reps == self.replicants@,
                cells == self.mapper@,
                self.mapper.wf(),
                forall|k: int|
                    0 <= k < i ==> cells.contains_key((#[trigger] reps[k]).pos) && cells[reps[k].pos]
                        == group(&reps[k]) && wrapped(self.mapper.spec_clip(), reps[k].pos)
                        == reps[k].pos,
                forall|a: int, b: int|
                    0 <= a < b < i ==> (#[trigger] reps[a]).pos != (#[trigger] reps[b]).pos,
            decreases n - i,
        {
            let own = self.replicants[i].net.pool();
            let at = self.replicants[i].pos;
            let wrapped_at = self.mapper.normalize(at.0, at.1);
            if wrapped_at.0 != at.0 || wrapped_at.1 != at.1 {
                assert(wrapped(self.mapper.spec_clip(), reps[i as int].pos) != reps[i as int].pos);
                return false;
            }
            match self.mapper.holds(self.replicants[i].pos) {
                None => {
                    assert(!cells.contains_key(reps[i as int].pos));
                    return false;
                },
                Some(owner) => {
                    if owner != own {
                        assert(cells[reps[i as int].pos] != group(&reps[i as int]));
                        return false;
                    }
                },
            }
            let mut j: usize = 0;
            while j < i
                invariant
                    j <= i,
                    i < n,
                    n == reps.len(),
                    reps == self.replicants@,
                    forall|a: int| 0 <= a < j ==> (#[trigger] reps[a]).pos != reps[i as int].pos,
                decreases i - j,
            {
                let p = self.replicants[j].pos;
                let q = self.replicants[i].pos;
                if p.0 == q.0 && p.1 == q.1 {
                    assert(reps[j as int].pos == reps[i as int].pos);
                    return false;
                }
                j += 1;
            }
            i += 1;
        }
        true
    }

    /// Whether the simulation is well formed.
    pub fn check(&self) -> (ok: bool)
        ensures
            ok == self.wf(),
    {
        if self.world.width <= 0 || self.world.height <= 0 {
            return false;
        }
        match self.mapper.clip() {
            None => {},
            Some((w, h)) => {
                if w <= 0 || h <= 0 {
                    return false;
                }
            },
        }
        self.check_nets() && self.check_placed()
    }
}

} // verus!
