//! An agent: a place on the grid, a network, and what it did in its life.

use crate::genome::HasGenome;
use crate::net::genome_of;
use crate::net::group_of;
use crate::net::grown;
use crate::net::Net;
use crate::net::NetGenome;
use crate::simulation::Cell;
use crate::simulation::CellMapper;
use crate::world::World;
use vstd::prelude::*;

verus! {

/// The rule that says which agents survive a round.
#[derive(Clone, Copy, Debug, PartialEq, Eq, Structural)]
pub enum Survival {
    /// An agent survives in company: three or four agents of its own group
    /// on the eight cells around it, and none of another group.
    Crowd,
    /// An agent survives in the upper half of the x axis.
    EastHalf,
}

/// The cell at an offset from `pos`, if its coordinates can be written.
pub open spec fn cell_at_offset(pos: Cell, dx: int, dy: int) -> Option<Cell> {
    if i32::MIN <= pos.0 + dx <= i32::MAX && i32::MIN <= pos.1 + dy <= i32::MAX {
        Some(((pos.0 + dx) as i32, (pos.1 + dy) as i32))
    } else {
        None
    }
}

/// The group that holds the cell at an offset from `pos`, if any does.
pub open spec fn owner_at(map: &CellMapper, pos: Cell, dx: int, dy: int) -> Option<usize> {
    match cell_at_offset(pos, dx, dy) {
        Some(c) => if map@.contains_key(map.spec_normalize(c)) {
            Some(map@[map.spec_normalize(c)])
        } else {
            None
        },
        None => None,
    }
}

/// One if the cell at the offset is held by `group`, else zero.
pub open spec fn friend_at(map: &CellMapper, pos: Cell, dx: int, dy: int, group: usize) -> int {
    if owner_at(map, pos, dx, dy) == Some(group) {
        1
    } else {
        0
    }
}

/// One if the cell at the offset is held by a group other than `group`,
/// else zero.
pub open spec fn stranger_at(map: &CellMapper, pos: Cell, dx: int, dy: int, group: usize) -> int {
    if owner_at(map, pos, dx, dy).is_some() && owner_at(map, pos, dx, dy) != Some(group) {
        1
    } else {
        0
    }
}

/// How many of the eight cells around `pos` are held by `group`.
pub open spec fn friends_around(map: &CellMapper, pos: Cell, group: usize) -> int {
    friend_at(map, pos, -1, 0, group) + friend_at(map, pos, 1, 0, group) + friend_at(
        map,
        pos,
        0,
        1,
        group,
    ) + friend_at(map, pos, -1, 1, group) + friend_at(map, pos, 1, 1, group) + friend_at(
        map,
        pos,
        0,
        -1,
        group,
    ) + friend_at(map, pos, -1, -1, group) + friend_at(map, pos, 1, -1, group)
}

/// How many of the eight cells around `pos` are held by another group than
/// `group`.
pub open spec fn strangers_around(map: &CellMapper, pos: Cell, group: usize) -> int {
    stranger_at(map, pos, -1, 0, group) + stranger_at(map, pos, 1, 0, group) + stranger_at(
        map,
        pos,
        0,
        1,
        group,
    ) + stranger_at(map, pos, -1, 1, group) + stranger_at(map, pos, 1, 1, group) + stranger_at(
        map,
        pos,
        0,
        -1,
        group,
    ) + stranger_at(map, pos, -1, -1, group) + stranger_at(map, pos, 1, -1, group)
}

/// Whether an agent of `group` at `pos` survives in company.
pub open spec fn alive_in_crowd(map: &CellMapper, pos: Cell, group: usize) -> bool {
    3 <= friends_around(map, pos, group) <= 4 && strangers_around(map, pos, group) == 0
}

/// Whether an agent at `pos` survives under the rule.
pub open spec fn alive_under(
    rule: Survival,
    world: &World,
    map: &CellMapper,
    pos: Cell,
    group: usize,
) -> bool {
    match rule {
        Survival::Crowd => alive_in_crowd(map, pos, group),
        Survival::EastHalf => 2 * pos.0 >= world.width,
    }
}

/// The cell at an offset from `pos`, if its coordinates can be written.
pub fn offset_cell(pos: Cell, dx: i32, dy: i32) -> (c: Option<Cell>)
    ensures
        c == cell_at_offset(pos, dx as int, dy as int),
{
    let x: i64 = pos.0 as i64 + dx as i64;
    let y: i64 = pos.1 as i64 + dy as i64;
    if x < i32::MIN as i64 || x > i32::MAX as i64 || y < i32::MIN as i64 || y > i32::MAX as i64 {
        None
    } else {
        Some((x as i32, y as i32))
    }
}

/// Who holds the cell at an offset from `pos`: whether it is `group`, and
/// whether it is another group.
fn look(map: &CellMapper, pos: Cell, dx: i32, dy: i32, group: usize) -> (seen: (u8, u8))
    requires
        map.wf(),
    ensures
        seen.0 == friend_at(map, pos, dx as int, dy as int, group),
        seen.1 == stranger_at(map, pos, dx as int, dy as int, group),
{
    match offset_cell(pos, dx, dy) {
        None => (0, 0),
        Some(c) => {
            let friend: u8 = if map.is(c.0, c.1, group) { 1 } else { 0 };
            let stranger: u8 = if map.isexcept(c.0, c.1, group) { 1 } else { 0 };
            (friend, stranger)
        },
    }
}

/// An agent.
#[derive(Debug)]
pub struct Replicant {
    /// The cell that the agent holds.
    pub pos: Cell,
    /// The network that steers the agent.
    pub net: Net,
    /// The ticks that the agent has lived.
    pub time: usize,
    /// The steps that the agent has made.
    pub moves: usize,
}

impl Replicant {
    /// The distance to another agent, in steps along the axes.
    pub open spec fn spec_dist(&self, rep: &Self) -> int {
        (if self.pos.0 >= rep.pos.0 {
            self.pos.0 - rep.pos.0
        } else {
            rep.pos.0 - self.pos.0
        }) + (if self.pos.1 >= rep.pos.1 {
            self.pos.1 - rep.pos.1
        } else {
            rep.pos.1 - self.pos.1
        })
    }

    /// The distance to another agent, in steps along the axes.
    pub fn dist(&self, rep: &Self) -> (d: u64)
        ensures
            d == self.spec_dist(rep),
    {
        let dx: i64 = self.pos.0 as i64 - rep.pos.0 as i64;
        let dy: i64 = self.pos.1 as i64 - rep.pos.1 as i64;
        let ax: i64 = if dx >= 0 { dx } else { -dx };
        let ay: i64 = if dy >= 0 { dy } else { -dy };
        (ax + ay) as u64
    }

    /// Whether the agent survives in company, as things stand: three or
    /// four agents of its own group on the eight cells around it, and none of
    /// another group. A cell whose coordinates cannot be written counts as
    /// free.
    pub fn is_alive(&self, world: &World, map: &CellMapper) -> (alive: bool)
        requires
            map.wf(),
        ensures
            alive == alive_in_crowd(map, self.pos, group_of(self.net@.genome.color) as usize),
    {
        let group = self.net.pool();
        let w = look(map, self.pos, -1, 0, group);
        let e = look(map, self.pos, 1, 0, group);
        let n = look(map, self.pos, 0, 1, group);
        let nw = look(map, self.pos, -1, 1, group);
        let ne = look(map, self.pos, 1, 1, group);
        let s = look(map, self.pos, 0, -1, group);
        let sw = look(map, self.pos, -1, -1, group);
        let se = look(map, self.pos, 1, -1, group);
        let friends: u8 = w.0 + e.0 + n.0 + nw.0 + ne.0 + s.0 + sw.0 + se.0;
        let strangers: u8 = w.1 + e.1 + n.1 + nw.1 + ne.1 + s.1 + sw.1 + se.1;
        friends > 2 && friends < 5 && strangers == 0
    }

    /// Whether the agent survives under the rule, as things stand.
    pub fn survives(&self, rule: Survival, world: &World, map: &CellMapper) -> (alive: bool)
        requires
            map.wf(),
        ensures
            alive == alive_under(
                rule,
                world,
                map,
                self.pos,
                group_of(self.net@.genome.color) as usize,
            ),
    {
        match rule {
            Survival::Crowd => self.is_alive(world, map),
            Survival::EastHalf => 2 * (self.pos.0 as i64) >= world.width as i64,
        }
    }
}

impl HasGenome<NetGenome> for Replicant {
    /// The genome of the agent's network.
    fn to_genome(&self) -> (genome: NetGenome)
        ensures
            genome@ == genome_of(self.net@),
    {
        self.net.to_genome()
    }

    /// A newborn agent with the network that the genome gives, at the
    /// origin.
    fn from_genome(genome: &NetGenome) -> (rep: Replicant)
        ensures
            rep.net@ == grown(genome@),
            rep.net.wf(),
            rep.pos == (0i32, 0i32),
            rep.time == 0,
            rep.moves == 0,
    {
        Replicant { pos: (0, 0), net: Net::from_genome(genome), time: 0, moves: 0 }
    }
}

} // verus!
