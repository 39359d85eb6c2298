//! What a viewer of the simulation needs: the pace at which to tick and
//! draw, and for every agent a dot with its place and its paint.

use crate::mutation::clamp_unit;
use crate::net::group_of;
use crate::replicant::alive_under;
use crate::replicant::Replicant;
use crate::server::Server;
use crate::simulation::Cell;
use crate::simulation::group;
use vstd::prelude::*;

verus! {

/// The frames that are drawn in a second.
pub const FPS: u32 = 30;

/// The slowest pace, in ticks a second; the pace falls back to it when it
/// has passed the fastest.
pub const SLOWEST: u32 = 10;

/// The pace does not pass this.
pub const FASTEST: u32 = 10000;

/// The opacity of an agent that would not survive.
pub const FADED: i32 = 400;

/// The least part of every channel of a painted agent.
pub const BASE: i32 = 200;

/// The settings of a viewer.
#[derive(Clone, Copy, Debug, PartialEq, Eq, Structural)]
pub struct Render {
    /// The ticks that are asked for in a second.
    pub tps: u32,
    /// Whether agents are painted in the fixed paint of their group rather
    /// than in their own colour.
    pub highlight_pools: bool,
}

/// What is drawn of one agent.
#[derive(Clone, Copy, Debug, PartialEq, Eq)]
pub struct Dot {
    /// The cell of the agent.
    pub pos: Cell,
    /// The paint: red, green, blue.
    pub rgb: (i32, i32, i32),
    /// The opacity: one for an agent that would survive, less for one that
    /// would not.
    pub opacity: i32,
}

/// The fixed paint of a group.
pub open spec fn group_paint(g: int) -> (i32, i32, i32) {
    if g == 0 {
        (1000i32, 300i32, 100i32)
    } else if g == 1 {
        (300i32, 1000i32, 100i32)
    } else {
        (200i32, 400i32, 1000i32)
    }
}

/// The spread of a colour: the greatest channel less the smallest, but at
/// least a hundredth.
pub open spec fn spread(color: Seq<i32>) -> int {
    let hi = if color[0] >= color[1] && color[0] >= color[2] {
        color[0]
    } else if color[1] >= color[2] {
        color[1]
    } else {
        color[2]
    };
    let lo = least(color);
    if hi - lo < 10 {
        10
    } else {
        hi - lo
    }
}

/// The smallest channel of a colour.
pub open spec fn least(color: Seq<i32>) -> int {
    if color[0] <= color[1] && color[0] <= color[2] {
        color[0] as int
    } else if color[1] <= color[2] {
        color[1] as int
    } else {
        color[2] as int
    }
}

/// One channel of an agent's own colour as it is painted: the base, and on
/// top of it the channel over the spread of the colour less the smallest
/// channel, scaled to what the base leaves; cut to the range of a paint.
pub open spec fn shade(color: Seq<i32>, k: int) -> int {
    clamp_unit(BASE + (1000 - BASE) * (color[k] * 1000 / spread(color) - least(color)) / 1000)
}

/// The dot of an agent.
pub open spec fn dot_of(render: Render, server: &Server, rep: &Replicant) -> Dot {
    let alive = alive_under(server.sim.rule, &server.sim.world, &server.sim.mapper, rep.pos, group(rep));
    let color = rep.net@.genome.color;
    Dot {
        pos: rep.pos,
        rgb: if render.highlight_pools {
            group_paint(group_of(color))
        } else {
            (shade(color, 0) as i32, shade(color, 1) as i32, shade(color, 2) as i32)
        },
        opacity: if alive {
            1000
        } else {
            FADED
        },
    }
}

/// One channel of an agent's own colour as it is painted.
fn shade_channel(c: i32, lo: i32, range: i64) -> (s: i32)
    requires
        10 <= range <= 0x1_0000_0000,
        0 <= c <= 1000,
        0 <= lo <= 1000,
    ensures
        s == clamp_unit(BASE + (1000 - BASE) * (c * 1000 / (range as int) - lo) / 1000),
{
    let share: i64 = (c as i64) * 1000 / range;
    assert(0 <= (c as int) * 1000 / (range as int) <= 100_000) by (nonlinear_arith)
        requires
            0 <= c <= 1000,
            range >= 10,
    ;
    let scaled: i64 = 800 * (share - lo as i64);
    let lifted: i64 = if scaled >= 0 {
        scaled / 1000
    } else {
        -(((-scaled) + 999) / 1000)
    };
    proof {
        lemma_floor_div(scaled as int);
    }
    let v: i64 = BASE as i64 + lifted;
    if v < 0 {
        0
    } else if v > 1000 {
        1000
    } else {
        v as i32
    }
}

/// The quotient of a negative number by a thousand, rounded down.
proof fn lemma_floor_div(a: int)
    ensures
        a < 0 ==> a / 1000 == -(((-a) + 999) / 1000),
{
    if a < 0 {
        let q = ((-a) + 999) / 1000;
        let r = ((-a) + 999) % 1000;
        vstd::arithmetic::div_mod::lemma_fundamental_div_mod((-a) + 999, 1000);
        vstd::arithmetic::div_mod::lemma_fundamental_div_mod_converse(a, 1000, -q, 999 - r);
    }
}

impl Render {
    /// The pace is within its bounds.
    pub open spec fn wf(&self) -> bool {
        1 <= self.tps <= FASTEST
    }

    /// The settings at the start: the slowest pace, groups highlighted.
    pub fn new() -> (r: Render)
        ensures
            r == (Render { tps: SLOWEST, highlight_pools: true }),
            r.wf(),
    {
        Render { tps: SLOWEST, highlight_pools: true }
    }

    /// Makes the pace five times as fast; past the fastest it falls back to
    /// the slowest.
    pub fn go_faster(&mut self)
        requires
            old(self).wf(),
        ensures
            final(self).tps == if old(self).tps * 5 > FASTEST {
                SLOWEST
            } else {
                (old(self).tps * 5) as u32
            },
            final(self).highlight_pools == old(self).highlight_pools,
            final(self).wf(),
    {
        let next: u32 = self.tps * 5;
        self.tps = if next > FASTEST { SLOWEST } else { next };
    }

    /// Switches between the paint of the group and the agent's own colour.
    pub fn view_pools(&mut self)
        ensures
            final(self).highlight_pools == !old(self).highlight_pools,
            final(self).tps == old(self).tps,
    {
        self.highlight_pools = !self.highlight_pools;
    }

    /// The milliseconds between two frames: a second over the frames in it,
    /// which are as many as the ticks asked for but no more than `FPS`.
    pub fn iter_interval(&self) -> (ms: u64)
        requires
            self.wf(),
        ensures
            ms == 1000int / (if self.tps < FPS { self.tps as int } else { FPS as int }),
    {
        let frames: u32 = if self.tps < FPS { self.tps } else { FPS };
        (1000 / frames) as u64
    }

    /// The ticks that are run before each frame: the ticks asked for over
    /// the frames in a second, rounded, and at least one.
    pub fn runs_per_frame(&self) -> (runs: usize)
        requires
            self.wf(),
        ensures
            runs == if (self.tps + 15) / 30 < 1 {
                1
            } else {
                (self.tps + 15) / 30
            },
    {
        let rounded: u32 = (self.tps + FPS / 2) / FPS;
        if rounded < 1 {
            1
        } else {
            rounded as usize
        }
    }

    /// The dots of all agents, in the order of the population.
    #[verifier::rlimit(30)]
    pub fn frame(&self, server: &Server) -> (dots: Vec<Dot>)
        requires
            server.sim.mapper.wf(),
            server.sim.nets_wf(),
        ensures
            dots.len() == server.sim.replicants.len(),
            forall|i: int|
                0 <= i < dots.len() ==> #[trigger] dots@[i] == dot_of(
                    *self,
                    server,
                    &server.sim.replicants@[i],
                ),
    {
        let mut dots: Vec<Dot> = Vec::new();
        let mut i: usize = 0;
        while i < server.sim.replicants.len()
            invariant
                i <= server.sim.replicants.len(),
                server.sim.mapper.wf(),
                dots.len() == i,
                server.sim.nets_wf(),
                forall|k: int|
                    0 <= k < i ==> #[trigger] dots@[k] == dot_of(
                        *self,
                        server,
                        &server.sim.replicants@[k],
                    ),
            decreases server.sim.replicants.len() - i,
        {
            let rep = &server.sim.replicants[i];
            assert(server.sim.replicants[i as int].net.wf());
            let alive = rep.survives(server.sim.rule, &server.sim.world, &server.sim.mapper);
            let c = rep.net.genome.color;
            let rgb: (i32, i32, i32) = if self.highlight_pools {
                let g = rep.net.pool();
                if g == 0 {
                    (1000, 300, 100)
                } else if g == 1 {
                    (300, 1000, 100)
                } else {
                    (200, 400, 1000)
                }
            } else {
                let hi: i32 = if c[0] >= c[1] && c[0] >= c[2] {
                    c[0]
                } else if c[1] >= c[2] {
                    c[1]
                } else {
                    c[2]
                };
                let lo: i32 = if c[0] <= c[1] && c[0] <= c[2] {
                    c[0]
                } else if c[1] <= c[2] {
                    c[1]
                } else {
                    c[2]
                };
                let range: i64 = if (hi - lo) < 10 { 10 } else { (hi - lo) as i64 };
                (shade_channel(c[0], lo, range), shade_channel(c[1], lo, range), shade_channel(
                    c[2],
                    lo,
                    range,
                ))
            };
            let dot = Dot { pos: rep.pos, rgb, opacity: if alive { 1000 } else { FADED } };
            let ghost before = dots@;
            dots.push(dot);
            proof {
                assert forall|k: int| 0 <= k < i + 1 implies #[trigger] dots@[k] == dot_of(
                    *self,
                    server,
                    &server.sim.replicants@[k],
                ) by {
                    if k < i {
                        assert(dots@[k] == before[k]);
                    }
                }
            }
            i += 1;
        }
        dots
    }
}

} // verus!
