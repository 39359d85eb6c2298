//! What the sensors of an agent read, in thousandths.

use crate::input::NeighbourType;
use crate::input::Sensor;
use crate::net::group_of;
use crate::net::toward_zero;
use crate::replicant::alive_under;
use crate::replicant::offset_cell;
use crate::replicant::owner_at;
use crate::replicant::Replicant;
use crate::replicant::Survival;
use crate::rng::RandomSource;
use crate::simulation::CellMapper;
use crate::world::World;
use vstd::prelude::*;

verus! {

/// A full turn, in thousandths of a radian.
pub const TURN: u128 = 6283;

/// Half a turn.
pub const HALF_TURN: u128 = 3142;

/// A quarter turn.
pub const QUARTER_TURN: u128 = 1571;

/// The step between two knots of the sine table.
pub const SINE_STEP: u128 = 196;

/// The sine at `k` steps of the table, in thousandths.
pub open spec fn sine_knot(k: int) -> int {
    if k <= 0 {
        0
    } else if k == 1 {
        195
    } else if k == 2 {
        382
    } else if k == 3 {
        555
    } else if k == 4 {
        706
    } else if k == 5 {
        831
    } else if k == 6 {
        923
    } else if k == 7 {
        980
    } else {
        1000
    }
}

/// The sine on the first quarter turn: within a thousandth of it at the
/// knots, a straight line between two of them.
pub open spec fn sine_rise(u: int) -> int {
    if u / 196 >= 8 {
        1000
    } else {
        sine_knot(u / 196) + (sine_knot(u / 196 + 1) - sine_knot(u / 196)) * (u % 196) / 196
    }
}

/// The sine on the first half turn: it falls as it rose.
pub open spec fn sine_arch(t: int) -> int {
    if t > 1571 {
        sine_rise(3142 - t)
    } else {
        sine_rise(t)
    }
}

/// The sine of an angle that is not negative, in fixed point: the second
/// half of every turn mirrors the first.
pub open spec fn sin_milli(a: int) -> int {
    if a % 6283 >= 3142 {
        -sine_arch(a % 6283 - 3142)
    } else {
        sine_arch(a % 6283)
    }
}

/// On the first quarter turn the sine lies between zero and one.
proof fn lemma_sine_rise_bounds(u: int)
    requires
        0 <= u,
    ensures
        0 <= sine_rise(u) <= 1000,
{
    let k = u / 196;
    let r = u % 196;
    if k < 8 {
        let d = sine_knot(k + 1) - sine_knot(k);
        assert(0 <= d <= 195);
        assert(0 <= d * r <= d * 196) by (nonlinear_arith)
            requires
                0 <= d,
                0 <= r < 196,
        ;
        assert(0 <= d * r / 196 <= d) by (nonlinear_arith)
            requires
                0 <= d * r <= d * 196,
        ;
    }
}

/// The knot of the sine table at `k`.
fn knot(k: u128) -> (v: u128)
    ensures
        v == sine_knot(k as int),
        v <= 1000,
{
    if k == 0 {
        0
    } else if k == 1 {
        195
    } else if k == 2 {
        382
    } else if k == 3 {
        555
    } else if k == 4 {
        706
    } else if k == 5 {
        831
    } else if k == 6 {
        923
    } else if k == 7 {
        980
    } else {
        1000
    }
}

/// The fixed-point sine of an angle in thousandths of a radian.
pub fn sine(a: u128) -> (y: i32)
    ensures
        y == sin_milli(a as int),
        -1000 <= y <= 1000,
{
    let r: u128 = a % TURN;
    let lower: bool = r >= HALF_TURN;
    let t: u128 = if lower { r - HALF_TURN } else { r };
    let u: u128 = if t > QUARTER_TURN { HALF_TURN - t } else { t };
    proof {
        lemma_sine_rise_bounds(u as int);
    }
    let k: u128 = u / SINE_STEP;
    let rise: u128 = if k >= 8 {
        1000
    } else {
        let lo = knot(k);
        let hi = knot(k + 1);
        assert(0 <= hi - lo <= 195);
        assert(0 <= (hi - lo) * (u % 196) <= 195 * 196) by (nonlinear_arith)
            requires
                0 <= hi - lo <= 195,
                0 <= u % 196 < 196,
        ;
        lo + (hi - lo) * (u % SINE_STEP) / SINE_STEP
    };
    if lower {
        -(rise as i32)
    } else {
        rise as i32
    }
}

/// One in fixed point if the condition holds, else zero.
pub open spec fn flag(b: bool) -> int {
    if b {
        1000
    } else {
        0
    }
}

/// The offset of the cell that a neighbour sensor looks at.
pub open spec fn looked_offset(vert: bool, incr: bool) -> (int, int) {
    let step: int = if incr { 1 } else { -1 };
    if vert {
        (0, step)
    } else {
        (step, 0)
    }
}

/// What a neighbour sensor of an agent of `group` makes of the owner of the
/// cell it looks at. A cell whose coordinates cannot be written is free.
pub open spec fn neighbour_says(kind: NeighbourType, owner: Option<usize>, group: usize) -> bool {
    match kind {
        NeighbourType::Any => owner.is_some(),
        NeighbourType::Empty => owner.is_none(),
        NeighbourType::Pool(p) => owner == Some(p),
        NeighbourType::Friend => owner == Some(group),
        NeighbourType::Enemy => owner != Some(group),
    }
}

/// The angle of the wave sensor after `time` ticks: half a radian a tick at
/// pace zero, up to twice that at the highest pace.
pub open spec fn wave_angle(time: int, pace: int) -> int {
    time * (255 + pace) * 100 / 51
}

/// A value cut to what 32 bits hold.
pub open spec fn saturated(v: int) -> int {
    if v < i32::MIN {
        i32::MIN as int
    } else if v > i32::MAX {
        i32::MAX as int
    } else {
        v
    }
}

/// What a sensor of the agent reads, with the world as it stands and `draw`
/// as the next random draw:
/// the place from the middle of the world, between minus a half and a half
/// for an agent inside it;
/// one plus the sine of the wave; the constant, up to four either way; a
/// random value below one; and one or zero for the sensors that answer yes
/// or no.
pub open spec fn reading(
    sensor: Sensor,
    rep: &Replicant,
    world: &World,
    map: &CellMapper,
    rule: Survival,
    draw: u32,
) -> int {
    let group = group_of(rep.net@.genome.color) as usize;
    match sensor {
        Sensor::Null => 0,
        Sensor::Loc { x } => if x {
            saturated(toward_zero(rep.pos.0 * 1000, world.width as int) - 500)
        } else {
            saturated(toward_zero(rep.pos.1 * 1000, world.height as int) - 500)
        },
        Sensor::Osc(pace) => 1000 + sin_milli(wave_angle(rep.time as int, pace as int)),
        Sensor::Bias(b) => toward_zero(4000 * b, 127),
        Sensor::Random => (draw % 1000) as int,
        Sensor::Alive => flag(alive_under(rule, world, map, rep.pos, group)),
        Sensor::Dead => flag(!alive_under(rule, world, map, rep.pos, group)),
        Sensor::Neighbour { vert, incr, kind } => flag(
            neighbour_says(
                kind,
                owner_at(map, rep.pos, looked_offset(vert, incr).0, looked_offset(vert, incr).1),
                group,
            ),
        ),
    }
}

/// The source after a sensor was read: only the random sensor takes a draw.
pub open spec fn after_reading(sensor: Sensor, rng: RandomSource) -> RandomSource {
    if sensor == Sensor::Random {
        rng.skip(1)
    } else {
        rng
    }
}

/// `a / d` rounded towards zero, for a dividend of moderate size.
fn scaled(a: i64, d: i64) -> (q: i64)
    requires
        d > 0,
        a > i64::MIN,
    ensures
        q == toward_zero(a as int, d as int),
{
    if a >= 0 {
        a / d
    } else {
        let q: i64 = (-a) / d;
        -q
    }
}

/// The quotient of a division towards zero is no larger than the dividend.
proof fn lemma_toward_zero_bound(a: int, d: int)
    requires
        d > 0,
    ensures
        a >= 0 ==> 0 <= toward_zero(a, d) <= a,
        a <= 0 ==> a <= toward_zero(a, d) <= 0,
{
    if a >= 0 {
        assert(0 <= a / d <= a) by (nonlinear_arith)
            requires
                a >= 0,
                d > 0,
        ;
    } else {
        assert(0 <= (-a) / d <= -a) by (nonlinear_arith)
            requires
                a < 0,
                d > 0,
        ;
    }
}

/// Reads one sensor of the agent.
pub fn read(
    sensor: Sensor,
    rep: &Replicant,
    world: &World,
    map: &CellMapper,
    rule: Survival,
    rng: &mut RandomSource,
) -> (value: i32)
    requires
        world.wf(),
        map.wf(),
    ensures
        value == reading(sensor, rep, world, map, rule, old(rng).peek(0)),
        *final(rng) == after_reading(sensor, *old(rng)),
{
    let group = rep.net.pool();
    match sensor {
        Sensor::Null => 0,
        Sensor::Loc { x } => {
            let (at, side) = if x {
                (rep.pos.0, world.width)
            } else {
                (rep.pos.1, world.height)
            };
            proof {
                lemma_toward_zero_bound(at * 1000, side as int);
            }
            let q: i64 = scaled(at as i64 * 1000, side as i64);
            saturate(q - 500)
        },
        Sensor::Osc(pace) => {
            assert((rep.time as u128) * (255 + pace as u128) <= 0xffff_ffff_ffff_ffff * 510)
                by (nonlinear_arith)
                requires
                    rep.time as u128 <= 0xffff_ffff_ffff_ffff,
                    255 + pace as u128 <= 510,
            ;
            let angle: u128 = (rep.time as u128) * (255 + pace as u128) * 100 / 51;
            1000 + sine(angle)
        },
        Sensor::Bias(b) => {
            proof {
                lemma_toward_zero_bound(4000 * b, 127);
            }
            scaled(4000 * (b as i64), 127) as i32
        },
        Sensor::Random => rng.below(1000) as i32,
        Sensor::Alive => if rep.survives(rule, world, map) {
            1000
        } else {
            0
        },
        Sensor::Dead => if !rep.survives(rule, world, map) {
            1000
        } else {
            0
        },
        Sensor::Neighbour { vert, incr, kind } => {
            let step: i32 = if incr { 1 } else { -1 };
            let (dx, dy) = if vert { (0, step) } else { (step, 0) };
            let says = match offset_cell(rep.pos, dx, dy) {
                None => match kind {
                    NeighbourType::Any => false,
                    NeighbourType::Empty => true,
                    NeighbourType::Pool(_) => false,
                    NeighbourType::Friend => false,
                    NeighbourType::Enemy => true,
                },
                Some(c) => match kind {
                    NeighbourType::Any => map.has(c.0, c.1),
                    NeighbourType::Empty => !map.has(c.0, c.1),
                    NeighbourType::Pool(p) => map.is(c.0, c.1, p),
                    NeighbourType::Friend => map.is(c.0, c.1, group),
                    NeighbourType::Enemy => !map.is(c.0, c.1, group),
                },
            };
            if says {
                1000
            } else {
                0
            }
        },
    }
}

/// A value cut to what 32 bits hold.
fn saturate(v: i64) -> (r: i32)
    ensures
        r == saturated(v as int),
{
    if v < i32::MIN as i64 {
        i32::MIN
    } else if v > i32::MAX as i64 {
        i32::MAX
    } else {
        v as i32
    }
}

} // verus!
