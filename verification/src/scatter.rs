//! Scattering the agents over the empty world at the start of a round.

use crate::act::Field;
use crate::act::field_of;
use crate::replicant::Replicant;
use crate::rng::RandomSource;
use crate::simulation::Cell;
use crate::simulation::group;
use crate::simulation::placed;
use crate::simulation::Simulation;
use crate::simulation::wrapped;
use crate::world::World;
use vstd::prelude::*;

verus! {

/// The number of cells of the world.
pub open spec fn grid_size(world: &World) -> int {
    world.width * world.height
}

/// The cell of the world with the number `t`, counting row by row.
pub open spec fn grid_cell(world: &World, t: int) -> Cell {
    ((t % (world.width as int)) as i32, (t / (world.width as int)) as i32)
}

/// The grid of the index is at least as large as the world, so that every
/// cell of the world is a cell of its own in the index.
pub open spec fn fits(clip: Option<(i32, i32)>, world: &World) -> bool {
    match clip {
        None => true,
        Some((w, h)) => w >= world.width && h >= world.height,
    }
}

/// How many of the first `n` cells of the world are taken.
pub open spec fn taken(cells: Map<Cell, usize>, world: &World, n: int) -> int
    decreases n,
{
    if n <= 0 {
        0
    } else {
        taken(cells, world, n - 1) + if cells.contains_key(grid_cell(world, n - 1)) {
            1int
        } else {
            0int
        }
    }
}

/// The number of the cell where the search for a free cell starts.
pub open spec fn scatter_start(world: &World, draw_x: u32, draw_y: u32) -> int {
    (draw_x % (world.width as u32)) + (draw_y % (world.height as u32)) * world.width
}

/// The cell that the search looks at in its step `s`: the cells are taken
/// in turn from the start, round the end of the world to its beginning.
pub open spec fn probe(world: &World, start: int, s: int) -> Cell {
    grid_cell(world, (start + s) % grid_size(world))
}

/// Step `s` of the search is the first that finds a free cell.
pub open spec fn is_first_free(cells: Map<Cell, usize>, world: &World, start: int, s: int) -> bool {
    &&& 0 <= s < grid_size(world)
    &&& !cells.contains_key(probe(world, start, s))
    &&& forall|r: int| 0 <= r < s ==> cells.contains_key(#[trigger] probe(world, start, r))
}

/// The cell that a newcomer gets: the first free cell that the search
/// finds, if the world has a free cell.
pub open spec fn settled_cell(cells: Map<Cell, usize>, world: &World, start: int) -> Option<Cell> {
    if exists|s: int| is_first_free(cells, world, start, s) {
        Some(probe(world, start, choose|s: int| is_first_free(cells, world, start, s)))
    } else {
        None
    }
}

/// The cells and the places of the agents after the first `n` agents were
/// scattered over the empty world. Each takes two draws for the start of its
/// search; one that finds the world full stays where it was.
pub open spec fn scattered(reps: Seq<Replicant>, world: &World, rng: RandomSource, n: int)
    -> Field
    decreases n,
{
    if n <= 0 {
        field_of(Map::empty(), reps)
    } else {
        let before = scattered(reps, world, rng, n - 1);
        let start = scatter_start(
            world,
            rng.skip(2 * (n - 1)).peek(0),
            rng.skip(2 * (n - 1)).peek(1),
        );
        match settled_cell(before.cells, world, start) {
            Some(c) => Field {
                cells: before.cells.insert(c, group(&reps[n - 1])),
                pos: before.pos.update(n - 1, c),
                moves: before.moves,
            },
            None => before,
        }
    }
}

/// The numbered cells of the world lie in the world, and each has one
/// number.
pub proof fn lemma_grid_cell(world: &World, t: int, u: int)
    requires
        world.wf(),
        0 <= t < grid_size(world),
        0 <= u < grid_size(world),
    ensures
        0 <= grid_cell(world, t).0 < world.width,
        0 <= grid_cell(world, t).1 < world.height,
        grid_cell(world, t) == grid_cell(world, u) ==> t == u,
{
    let w = world.width as int;
    let h = world.height as int;
    assert(0 <= t / w < h) by (nonlinear_arith)
        requires
            0 <= t < w * h,
            w > 0,
    ;
    assert(0 <= u / w < h) by (nonlinear_arith)
        requires
            0 <= u < w * h,
            w > 0,
    ;
    vstd::arithmetic::div_mod::lemma_fundamental_div_mod(t, w);
    vstd::arithmetic::div_mod::lemma_fundamental_div_mod(u, w);
    vstd::arithmetic::div_mod::lemma_mod_bound(t, w);
    vstd::arithmetic::div_mod::lemma_mod_bound(u, w);
}

/// A cell of the world lies where it is on a grid that fits the world.
pub proof fn lemma_fits(clip: Option<(i32, i32)>, world: &World, c: Cell)
    requires
        fits(clip, world),
        0 <= c.0 < world.width,
        0 <= c.1 < world.height,
    ensures
        wrapped(clip, c) == c,
{
    match clip {
        None => {},
        Some((w, h)) => {
            vstd::arithmetic::div_mod::lemma_small_mod(c.0 as nat, w as nat);
            vstd::arithmetic::div_mod::lemma_small_mod(c.1 as nat, h as nat);
        },
    }
}

/// Taking a free cell of the world raises the count of taken cells by one.
pub proof fn lemma_taken_insert(cells: Map<Cell, usize>, world: &World, t: int, v: usize, n: int)
    requires
        world.wf(),
        0 <= t < grid_size(world),
        0 <= n <= grid_size(world),
        !cells.contains_key(grid_cell(world, t)),
    ensures
        taken(cells.insert(grid_cell(world, t), v), world, n) == taken(cells, world, n) + if t
            < n {
            1int
        } else {
            0int
        },
    decreases n,
{
    if n > 0 {
        lemma_taken_insert(cells, world, t, v, n - 1);
        lemma_grid_cell(world, t, n - 1);
    }
}

/// In an empty index no cell of the world is taken.
pub proof fn lemma_taken_empty(world: &World, n: int)
    ensures
        taken(Map::<Cell, usize>::empty(), world, n) == 0,
    decreases n,
{
    if n > 0 {
        lemma_taken_empty(world, n - 1);
    }
}

/// No more cells are taken than there are, and all are taken exactly if
/// every single one is.
pub proof fn lemma_taken_full(cells: Map<Cell, usize>, world: &World, n: int)
    requires
        0 <= n,
    ensures
        0 <= taken(cells, world, n) <= n,
        taken(cells, world, n) == n <==> forall|t: int|
            0 <= t < n ==> cells.contains_key(#[trigger] grid_cell(world, t)),
    decreases n,
{
    if n > 0 {
        lemma_taken_full(cells, world, n - 1);
        if taken(cells, world, n) == n {
            assert forall|t: int| 0 <= t < n implies cells.contains_key(
                #[trigger] grid_cell(world, t),
            ) by {
                if t < n - 1 {
                }
            }
        }
        if forall|t: int| 0 <= t < n ==> cells.contains_key(#[trigger] grid_cell(world, t)) {
            assert(cells.contains_key(grid_cell(world, n - 1)));
            assert forall|t: int| 0 <= t < n - 1 implies cells.contains_key(
                #[trigger] grid_cell(world, t),
            ) by {}
        }
    }
}

/// The search looks at every cell of the world.
pub proof fn lemma_probe_covers(world: &World, start: int, t: int)
    requires
        world.wf(),
        0 <= start < grid_size(world),
        0 <= t < grid_size(world),
    ensures
        exists|s: int|
            0 <= s < grid_size(world) && grid_cell(world, t) == #[trigger] probe(world, start, s),
{
    let total = grid_size(world);
    if t >= start {
        vstd::arithmetic::div_mod::lemma_small_mod(t as nat, total as nat);
        assert(t == (start + (t - start)) % total);
        assert(grid_cell(world, t) == probe(world, start, t - start));
    } else {
        let s = t - start + total;
        vstd::arithmetic::div_mod::lemma_mod_add_multiples_vanish(t, total);
        vstd::arithmetic::div_mod::lemma_small_mod(t as nat, total as nat);
        assert(start + s == total + t);
        assert(t == (start + s) % total);
        assert(grid_cell(world, t) == probe(world, start, s));
    }
}

/// The first free cell that a search finds is the cell that the newcomer
/// gets.
pub proof fn lemma_settled(cells: Map<Cell, usize>, world: &World, start: int, s: int)
    requires
        is_first_free(cells, world, start, s),
    ensures
        settled_cell(cells, world, start) == Some(probe(world, start, s)),
{
    let c = choose|c: int| is_first_free(cells, world, start, c);
    if c < s {
        assert(cells.contains_key(probe(world, start, c)));
    } else if s < c {
        assert(cells.contains_key(probe(world, start, s)));
    }
}

impl Simulation {
    /// `post` and `rng_after` are what scattering makes of this simulation
    /// and of `rng`: the agents lie where the search put them on the empty
    /// grid, and are otherwise as they were.
    pub open spec fn scatters_to(
        &self,
        rng: RandomSource,
        post: &Simulation,
        rng_after: RandomSource,
    ) -> bool {
        &&& post.world == self.world
        &&& post.rule == self.rule
        &&& post.mapper.spec_clip() == self.mapper.spec_clip()
        &&& post.replicants.len() == self.replicants.len()
        &&& rng_after == rng.skip(2 * self.replicants.len())
        &&& post.mapper@ == scattered(
            self.replicants@,
            &self.world,
            rng,
            self.replicants.len() as int,
        ).cells
        &&& forall|i: int|
            0 <= i < post.replicants.len() ==> {
                &&& (#[trigger] post.replicants@[i]).pos == scattered(
                    self.replicants@,
                    &self.world,
                    rng,
                    self.replicants.len() as int,
                ).pos[i]
                &&& post.replicants@[i].net == self.replicants@[i].net
                &&& post.replicants@[i].time == self.replicants@[i].time
                &&& post.replicants@[i].moves == self.replicants@[i].moves
            }
    }

    /// Finds a cell for agent `i`: two draws pick a cell of the world, and
    /// from there the cells are tried in turn until one is free. The agent
    /// takes the first free cell; if the world is full it stays where it was.
    fn settle(&mut self, i: usize, rng: &mut RandomSource) -> (ok: bool)
        requires
            i < old(self).replicants.len(),
            old(self).world.wf(),
            old(self).mapper.wf(),
            fits(old(self).mapper.spec_clip(), &old(self).world),
        ensures
            final(self).world == old(self).world,
            final(self).rule == old(self).rule,
            final(self).mapper.spec_clip() == old(self).mapper.spec_clip(),
            final(self).replicants.len() == old(self).replicants.len(),
            forall|k: int|
                #![trigger final(self).replicants@[k]]
                0 <= k < old(self).replicants.len() && k != i ==> final(self).replicants@[k]
                    == old(self).replicants@[k],
            final(self).replicants@[i as int].net == old(self).replicants@[i as int].net,
            final(self).replicants@[i as int].time == old(self).replicants@[i as int].time,
            final(self).replicants@[i as int].moves == old(self).replicants@[i as int].moves,
            *final(rng) == old(rng).skip(2),
            ok == (taken(old(self).mapper@, &old(self).world, grid_size(&old(self).world))
                < grid_size(&old(self).world)),
            match settled_cell(
                old(self).mapper@,
                &old(self).world,
                scatter_start(&old(self).world, old(rng).peek(0), old(rng).peek(1)),
            ) {
                Some(c) => ok && final(self).mapper@ == old(self).mapper@.insert(
                    c,
                    group(&old(self).replicants@[i as int]),
                ) && final(self).replicants@[i as int].pos == c && !old(self).mapper@.contains_key(c)
                    && exists|t: int|
                    0 <= t < grid_size(&old(self).world) && c == #[trigger] grid_cell(
                        &old(self).world,
                        t,
                    ),
                None => !ok && final(self).mapper@ == old(self).mapper@
                    && final(self).replicants@[i as int].pos == old(self).replicants@[i as int].pos,
            },
    {
        let ghost world = self.world;
        let ghost cells = self.mapper@;
        let ghost reps0 = self.replicants@;
        let w: u64 = self.world.width as u64;
        let h: u64 = self.world.height as u64;
        assert(0 < w * h <= 0x7fff_ffff * 0x7fff_ffff) by (nonlinear_arith)
            requires
                0 < w <= 0x7fff_ffff,
                0 < h <= 0x7fff_ffff,
        ;
        let total: u64 = w * h;
        proof {
            old(rng).lemma_skip(1, 0);
            old(rng).lemma_skip(1, 1);
        }
        let x0: u64 = rng.below(self.world.width as u32) as u64;
        let y0: u64 = rng.below(self.world.height as u32) as u64;
        assert(0 <= x0 + y0 * w < w * h) by (nonlinear_arith)
            requires
                0 <= x0 < w,
                0 <= y0 < h,
        ;
        let start: u64 = x0 + y0 * w;
        assert(start == scatter_start(&world, old(rng).peek(0), old(rng).peek(1)));
        let own = self.replicants[i].net.pool();
        let mut s: u64 = 0;
        while s < total
            invariant
                s <= total,
                total == grid_size(&world),
                total <= 0x7fff_ffff * 0x7fff_ffff,
                world == old(self).world,
                cells == old(self).mapper@,
                reps0 == old(self).replicants@,
                *rng == old(rng).skip(2),
                start == scatter_start(&world, old(rng).peek(0), old(rng).peek(1)),
                w == world.width,
                h == world.height,
                world.wf(),
                start < total,
                i < self.replicants.len(),
                self.world == world,
                self.rule == old(self).rule,
                self.mapper.wf(),
                self.mapper.spec_clip() == old(self).mapper.spec_clip(),
                fits(self.mapper.spec_clip(), &world),
                self.mapper@ == cells,
                self.replicants@ == reps0,
                own == group(&reps0[i as int]),
                forall|r: int| 0 <= r < s ==> cells.contains_key(#[trigger] probe(&world, start as int, r)),
            decreases total - s,
        {
            let t: u64 = (start + s) % total;
            proof {
                lemma_grid_cell(&world, t as int, t as int);
            }
            let cell: (i32, i32) = ((t % w) as i32, (t / w) as i32);
            proof {
                assert(cell == grid_cell(&world, t as int));
                assert(cell == probe(&world, start as int, s as int));
                lemma_fits(self.mapper.spec_clip(), &world, cell);
            }
            if self.mapper.add_abs(&mut self.replicants[i].pos, cell, own) {
                proof {
                    assert(is_first_free(cells, &world, start as int, s as int));
                    lemma_settled(cells, &world, start as int, s as int);
                    lemma_taken_full(cells, &world, total as int);
                    assert(grid_cell(&world, t as int) == cell);
                }
                return true;
            }
            s += 1;
        }
        proof {
            assert forall|t: int| 0 <= t < total implies cells.contains_key(
                #[trigger] grid_cell(&world, t),
            ) by {
                lemma_probe_covers(&world, start as int, t);
                let r = choose|r: int|
                    0 <= r < grid_size(&world) && grid_cell(&world, t) == #[trigger] probe(
                        &world,
                        start as int,
                        r,
                    );
                assert(cells.contains_key(probe(&world, start as int, r)));
            }
            lemma_taken_full(cells, &world, total as int);
            assert(settled_cell(cells, &world, start as int).is_none()) by {
                if exists|f: int| is_first_free(cells, &world, start as int, f) {
                    let f = choose|f: int| is_first_free(cells, &world, start as int, f);
                    assert(cells.contains_key(probe(&world, start as int, f)));
                }
            }
        }
        false
    }

    /// Scatters the agents over the empty world, in the order of the
    /// population, and tells whether every agent found a cell: they all do
    /// exactly if there are no more agents than cells. The networks and
    /// counters of the agents stay as they are.
    pub fn setup(&mut self, rng: &mut RandomSource) -> (ok: bool)
        requires
            old(self).world.wf(),
            old(self).mapper.wf(),
            fits(old(self).mapper.spec_clip(), &old(self).world),
        ensures
            old(self).scatters_to(*old(rng), final(self), *final(rng)),
            final(self).world == old(self).world,
            final(self).rule == old(self).rule,
            final(self).mapper.spec_clip() == old(self).mapper.spec_clip(),
            final(self).replicants.len() == old(self).replicants.len(),
            *final(rng) == old(rng).skip(2 * old(self).replicants.len()),
            final(self).mapper@ == scattered(
                old(self).replicants@,
                &old(self).world,
                *old(rng),
                old(self).replicants.len() as int,
            ).cells,
            forall|i: int|
                0 <= i < final(self).replicants.len() ==> {
                    &&& (#[trigger] final(self).replicants@[i]).pos == scattered(
                        old(self).replicants@,
                        &old(self).world,
                        *old(rng),
                        old(self).replicants.len() as int,
                    ).pos[i]
                    &&& final(self).replicants@[i].net == old(self).replicants@[i].net
                    &&& final(self).replicants@[i].time == old(self).replicants@[i].time
                    &&& final(self).replicants@[i].moves == old(self).replicants@[i].moves
                },
            ok == (old(self).replicants.len() <= grid_size(&old(self).world)),
            ok ==> placed(
                final(self).mapper.spec_clip(),
                final(self).mapper@,
                final(self).replicants@,
                final(self).replicants.len() as int,
            ),
    {
        let ghost world = self.world;
        let ghost reps0 = self.replicants@;
        let ghost rng0 = *rng;
        let ghost total = grid_size(&world);
        self.mapper.reset();
        let n: usize = self.replicants.len();
        let mut ok: bool = true;
        let mut k: usize = 0;
        proof {
            rng0.lemma_skip(0, 0);
            lemma_taken_empty(&world, total);
            assert(scattered(reps0, &world, rng0, 0).pos.len() == n);
            assert(0 <= total) by (nonlinear_arith)
                requires
                    total == world.width * world.height,
                    world.width > 0,
                    world.height > 0,
            ;
        }
        while k < n
            invariant
                k <= n,
                n == reps0.len(),
                n == self.replicants.len(),
                world.wf(),
                total == grid_size(&world),
                0 <= total,
                self.world == world,
                self.rule == old(self).rule,
                self.mapper.wf(),
                self.mapper.spec_clip() == old(self).mapper.spec_clip(),
                fits(self.mapper.spec_clip(), &world),
                *rng == rng0.skip(2 * k),
                self.mapper@ == scattered(reps0, &world, rng0, k as int).cells,
                scattered(reps0, &world, rng0, k as int).pos.len() == n,
                forall|i: int|
                    0 <= i < n ==> {
                        &&& (#[trigger] self.replicants@[i]).pos == scattered(
                            reps0,
                            &world,
                            rng0,
                            k as int,
                        ).pos[i]
                        &&& self.replicants@[i].net == reps0[i].net
                        &&& self.replicants@[i].time == reps0[i].time
                        &&& self.replicants@[i].moves == reps0[i].moves
                    },
                taken(self.mapper@, &world, total) == if k <= total {
                    k as int
                } else {
                    total
                },
                ok == (k <= total),
                ok ==> placed(self.mapper.spec_clip(), self.mapper@, self.replicants@, k as int),
            decreases n - k,
        {
            let ghost before = scattered(reps0, &world, rng0, k as int);
            let ghost reps1 = self.replicants@;
            let ghost start = scatter_start(&world, rng.peek(0), rng.peek(1));
            proof {
                rng0.lemma_skip(2 * k, 2);
                assert(group(&reps1[k as int]) == group(&reps0[k as int]));
            }
            let found = self.settle(k, rng);
            proof {
                let after = scattered(reps0, &world, rng0, k + 1);
                match settled_cell(before.cells, &world, start) {
                    Some(c) => {
                        let t = choose|t: int|
                            0 <= t < grid_size(&world) && c == #[trigger] grid_cell(&world, t);
                        lemma_taken_insert(before.cells, &world, t, group(&reps1[k as int]), total);
                        lemma_grid_cell(&world, t, t);
                        lemma_fits(self.mapper.spec_clip(), &world, c);
                        assert(after.pos == before.pos.update(k as int, c));
                        if ok {
                            assert forall|i: int| 0 <= i < k + 1 implies self.mapper@.contains_key(
                                (#[trigger] self.replicants@[i]).pos,
                            ) && self.mapper@[self.replicants@[i].pos] == group(
                                &self.replicants@[i],
                            ) && wrapped(self.mapper.spec_clip(), self.replicants@[i].pos)
                                == self.replicants@[i].pos by {
                                if i < k {
                                    assert(self.replicants@[i] == reps1[i]);
                                    assert(before.cells.contains_key(reps1[i].pos));
                                }
                            }
                            assert forall|i: int, j: int| 0 <= i < j < k + 1 implies (
                            #[trigger] self.replicants@[i]).pos != (
                            #[trigger] self.replicants@[j]).pos by {
                                assert(self.replicants@[i] == reps1[i]);
                                assert(before.cells.contains_key(reps1[i].pos));
                                if j < k {
                                    assert(self.replicants@[j] == reps1[j]);
                                    assert(reps1[i].pos != reps1[j].pos);
                                }
                            }
                        }
                    },
                    None => {
                        assert(after == before);
                    },
                }
                assert forall|i: int| 0 <= i < n implies (#[trigger] self.replicants@[i]).pos
                    == after.pos[i] by {
                    if i != k {
                        assert(self.replicants@[i] == reps1[i]);
                    }
                }
            }
            if !found {
                ok = false;
            }
            k += 1;
        }
        ok
    }
}

} // verus!
