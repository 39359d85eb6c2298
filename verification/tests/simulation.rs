use replicants::actions::Action;
use replicants::genome::HasGenome;
use replicants::input::NeighbourType;
use replicants::input::Sensor;
use replicants::net::NetGenome;
use replicants::net::NeuralLink;
use replicants::net::NeuralSource;
use replicants::net::NeuralTarget;
use replicants::replicant::Replicant;
use replicants::replicant::Survival;
use replicants::rng::RandomSource;
use replicants::sense::read;
use replicants::sense::sine;
use replicants::simulation::CellMapper;
use replicants::simulation::Simulation;
use replicants::world::World;

fn agent(color: [i32; 3]) -> Replicant {
    let mut g = NetGenome::new();
    g.color = color;
    Replicant::from_genome(&g)
}

fn walker(action: Action, color: [i32; 3]) -> Replicant {
    let mut g = NetGenome::new();
    g.color = color;
    g.link(
        NeuralSource::Sensor(Sensor::Bias(127)),
        NeuralTarget::Action(action),
        NeuralLink { inverse: false, weight: 3999 },
    );
    Replicant::from_genome(&g)
}

fn random_agent(rng: &mut RandomSource) -> Replicant {
    let mut g = NetGenome::new();
    for _ in 0..4 {
        g.randomize(rng);
    }
    g.randomize_color(rng);
    Replicant::from_genome(&g)
}

fn world(width: i32, height: i32, clip: Option<(i32, i32)>, reps: Vec<Replicant>) -> Simulation {
    Simulation {
        world: World { width, height },
        replicants: reps,
        mapper: CellMapper::new(clip),
        rule: Survival::Crowd,
    }
}

fn assert_one_agent_a_cell(sim: &Simulation) {
    for (i, a) in sim.replicants.iter().enumerate() {
        assert_eq!(sim.mapper.holds(a.pos), Some(a.net.pool()));
        for b in sim.replicants.iter().skip(i + 1) {
            assert_ne!(a.pos, b.pos);
        }
    }
    assert!(sim.check());
}

#[test]
fn sine_is_exact_at_the_knots_and_mirrors() {
    assert_eq!(sine(0), 0);
    assert_eq!(sine(196), 195);
    assert_eq!(sine(98), 97);
    assert_eq!(sine(1571), 1000);
    assert_eq!(sine(3142 - 196), 195);
    assert_eq!(sine(3142), 0);
    assert_eq!(sine(3142 + 196), -195);
    assert_eq!(sine(4713), -1000);
    assert_eq!(sine(6283), 0);
    assert_eq!(sine(6283 + 196), 195);
    assert_eq!(sine(u128::MAX), sine(u128::MAX % 6283));
}

#[test]
fn sensors_read_place_wave_and_constant() {
    let w = World { width: 80, height: 40 };
    let map = CellMapper::new(None);
    let mut rep = agent([0, 0, 1000]);
    rep.pos = (20, 30);
    rep.time = 7;
    let mut rng = RandomSource::new(1);
    let r = Survival::EastHalf;
    assert_eq!(read(Sensor::Loc { x: true }, &rep, &w, &map, r, &mut rng), -250);
    assert_eq!(read(Sensor::Loc { x: false }, &rep, &w, &map, r, &mut rng), 250);
    assert_eq!(read(Sensor::Null, &rep, &w, &map, r, &mut rng), 0);
    assert_eq!(read(Sensor::Bias(127), &rep, &w, &map, r, &mut rng), 4000);
    assert_eq!(read(Sensor::Bias(-127), &rep, &w, &map, r, &mut rng), -4000);
    assert_eq!(read(Sensor::Bias(1), &rep, &w, &map, r, &mut rng), 31);
    assert_eq!(read(Sensor::Bias(-128), &rep, &w, &map, r, &mut rng), -4031);
    assert_eq!(read(Sensor::Osc(0), &rep, &w, &map, r, &mut rng), 1000 + sine(3500));
    assert_eq!(read(Sensor::Osc(255), &rep, &w, &map, r, &mut rng), 1000 + sine(7000));
    assert_eq!(read(Sensor::Osc(0), &rep, &w, &map, r, &mut rng), 651);
    assert_eq!(read(Sensor::Alive, &rep, &w, &map, r, &mut rng), 0);
    assert_eq!(read(Sensor::Dead, &rep, &w, &map, r, &mut rng), 1000);
    rep.pos = (40, 0);
    assert_eq!(read(Sensor::Alive, &rep, &w, &map, r, &mut rng), 1000);
    assert_eq!(read(Sensor::Loc { x: true }, &rep, &w, &map, r, &mut rng), 0);
    assert_eq!(rng.position, 0);
    let value = read(Sensor::Random, &rep, &w, &map, r, &mut rng);
    assert_eq!(value as u32, RandomSource::new(1).next_u32() % 1000);
    assert_eq!(rng.position, 1);
}

#[test]
fn neighbour_sensors_look_one_cell_away() {
    let w = World { width: 10, height: 10 };
    let mut map = CellMapper::new(None);
    let mut p = (0, 0);
    assert!(map.add_abs(&mut p, (6, 5), 2));
    assert!(map.add_abs(&mut p, (5, 4), 1));
    let mut rep = agent([0, 0, 1000]);
    rep.pos = (5, 5);
    let mut rng = RandomSource::new(1);
    let r = Survival::Crowd;
    let look = |vert, incr, kind, rng: &mut RandomSource| {
        read(Sensor::Neighbour { vert, incr, kind }, &rep, &w, &map, r, rng)
    };
    assert_eq!(look(false, true, NeighbourType::Any, &mut rng), 1000);
    assert_eq!(look(false, true, NeighbourType::Empty, &mut rng), 0);
    assert_eq!(look(false, true, NeighbourType::Friend, &mut rng), 1000);
    assert_eq!(look(false, true, NeighbourType::Enemy, &mut rng), 0);
    assert_eq!(look(false, true, NeighbourType::Pool(2), &mut rng), 1000);
    assert_eq!(look(false, true, NeighbourType::Pool(1), &mut rng), 0);
    assert_eq!(look(true, false, NeighbourType::Any, &mut rng), 1000);
    assert_eq!(look(true, false, NeighbourType::Friend, &mut rng), 0);
    assert_eq!(look(true, false, NeighbourType::Enemy, &mut rng), 1000);
    assert_eq!(look(true, false, NeighbourType::Pool(1), &mut rng), 1000);
    assert_eq!(look(false, false, NeighbourType::Any, &mut rng), 0);
    assert_eq!(look(false, false, NeighbourType::Empty, &mut rng), 1000);
    assert_eq!(look(false, false, NeighbourType::Enemy, &mut rng), 1000);
    assert_eq!(look(true, true, NeighbourType::Pool(0), &mut rng), 0);
}

#[test]
fn survival_in_company_needs_three_or_four_friends_and_no_stranger() {
    let w = World { width: 10, height: 10 };
    let mut map = CellMapper::new(None);
    let mut p = (0, 0);
    let mut rep = agent([1000, 0, 0]);
    rep.pos = (5, 5);
    assert!(map.add_abs(&mut p, (5, 5), 0));
    assert!(!rep.is_alive(&w, &map));
    assert!(map.add_abs(&mut p, (4, 4), 0));
    assert!(map.add_abs(&mut p, (6, 6), 0));
    assert!(!rep.is_alive(&w, &map));
    assert!(map.add_abs(&mut p, (5, 6), 0));
    assert!(rep.is_alive(&w, &map));
    assert!(rep.survives(Survival::Crowd, &w, &map));
    assert!(map.add_abs(&mut p, (4, 5), 0));
    assert!(rep.is_alive(&w, &map));
    assert!(map.add_abs(&mut p, (6, 4), 0));
    assert!(!rep.is_alive(&w, &map));
    let mut other = CellMapper::new(None);
    for c in [(4, 4), (6, 6), (5, 6)] {
        assert!(other.add_abs(&mut p, c, 0));
    }
    assert!(rep.is_alive(&w, &other));
    assert!(other.add_abs(&mut p, (5, 4), 1));
    assert!(!rep.is_alive(&w, &other));
    assert!(rep.survives(Survival::EastHalf, &w, &other));
    rep.pos = (4, 9);
    assert!(!rep.survives(Survival::EastHalf, &w, &other));
}

#[test]
fn distance_counts_steps_along_the_axes() {
    let mut a = agent([0, 0, 0]);
    let mut b = agent([0, 0, 0]);
    a.pos = (3, -4);
    b.pos = (-1, 6);
    assert_eq!(a.dist(&b), 14);
    assert_eq!(b.dist(&a), 14);
    assert_eq!(a.dist(&a), 0);
    a.pos = (i32::MIN, i32::MIN);
    b.pos = (i32::MAX, i32::MAX);
    assert_eq!(a.dist(&b), 2 * (u32::MAX as u64));
}

#[test]
fn setup_gives_every_agent_a_cell_of_its_own() {
    let mut rng = RandomSource::new(8);
    let reps: Vec<Replicant> = (0..12).map(|i| agent([i % 2 * 1000, 0, 500])).collect();
    let mut sim = world(4, 3, None, reps);
    assert!(sim.setup(&mut rng));
    assert_eq!(rng.position, 24);
    assert_one_agent_a_cell(&sim);
    for r in sim.replicants.iter() {
        assert!(0 <= r.pos.0 && r.pos.0 < 4 && 0 <= r.pos.1 && r.pos.1 < 3);
    }
    let mut check = RandomSource::new(8);
    let first = ((check.next_u32() % 4) as i32, (check.next_u32() % 3) as i32);
    assert_eq!(sim.replicants[0].pos, first);
}

#[test]
fn setup_fails_exactly_when_the_world_is_too_small() {
    let reps: Vec<Replicant> = (0..7).map(|_| agent([0, 0, 0])).collect();
    let mut sim = world(3, 2, None, reps);
    sim.replicants[6].pos = (-5, -5);
    assert!(!sim.setup(&mut RandomSource::new(8)));
    assert_eq!(sim.replicants[6].pos, (-5, -5));
    for x in 0..3 {
        for y in 0..2 {
            assert!(sim.mapper.has(x, y));
        }
    }
    let mut empty = world(3, 2, Some((3, 2)), vec![]);
    assert!(empty.setup(&mut RandomSource::new(8)));
}

#[test]
fn agents_do_not_leave_a_world_that_does_not_wrap() {
    let mut sim = world(3, 1, None, vec![walker(Action::IncX, [0, 0, 0])]);
    assert!(sim.mapper.add_abs(&mut sim.replicants[0].pos, (0, 0), 0));
    let mut rng = RandomSource::new(1);
    let mut places = vec![];
    for _ in 0..8 {
        sim.tick(&mut rng);
        places.push(sim.replicants[0].pos);
    }
    assert_eq!(places.last(), Some(&(2, 0)));
    assert!(places.iter().all(|p| 0 <= p.0 && p.0 < 3 && p.1 == 0));
    assert_eq!(sim.replicants[0].moves, 2);
    assert_eq!(sim.replicants[0].time, 8);
    let mut down = world(3, 1, None, vec![walker(Action::DecY, [0, 0, 0])]);
    assert!(down.mapper.add_abs(&mut down.replicants[0].pos, (1, 0), 0));
    for _ in 0..8 {
        down.tick(&mut rng);
    }
    assert_eq!(down.replicants[0].pos, (1, 0));
    assert_eq!(down.replicants[0].moves, 0);
}

#[test]
fn agents_go_round_a_world_that_wraps() {
    let mut sim = world(3, 3, Some((3, 3)), vec![walker(Action::DecX, [0, 0, 0])]);
    assert!(sim.mapper.add_abs(&mut sim.replicants[0].pos, (1, 1), 0));
    let mut rng = RandomSource::new(1);
    let mut places = vec![];
    let mut moves = vec![];
    for _ in 0..30 {
        sim.tick(&mut rng);
        if places.last() != Some(&sim.replicants[0].pos) {
            places.push(sim.replicants[0].pos);
        }
        moves.push(sim.replicants[0].moves);
    }
    assert_eq!(&places[0..4], &[(0, 1), (2, 1), (1, 1), (0, 1)]);
    assert_eq!(*moves.last().unwrap(), places.len());
}

#[test]
fn a_taken_cell_stops_a_move_and_the_move_is_not_counted() {
    let mut sim = world(
        3,
        1,
        None,
        vec![walker(Action::IncX, [1000, 0, 0]), agent([0, 1000, 0])],
    );
    assert!(sim.mapper.add_abs(&mut sim.replicants[0].pos, (0, 0), 0));
    assert!(sim.mapper.add_abs(&mut sim.replicants[1].pos, (2, 0), 1));
    let mut rng = RandomSource::new(1);
    for _ in 0..10 {
        sim.tick(&mut rng);
        assert_one_agent_a_cell(&sim);
    }
    assert_eq!(sim.replicants[0].pos, (1, 0));
    assert_eq!(sim.replicants[1].pos, (2, 0));
    assert_eq!(sim.replicants[0].moves, 1);
    assert!(sim.mapper.is(1, 0, 0));
    assert!(sim.mapper.is(2, 0, 1));
    assert!(!sim.mapper.has(0, 0));
}

#[test]
fn act_lets_later_agents_see_earlier_moves() {
    let mut sim = world(4, 1, None, vec![agent([0, 0, 0]), agent([0, 0, 0])]);
    assert!(sim.mapper.add_abs(&mut sim.replicants[0].pos, (1, 0), 0));
    assert!(sim.mapper.add_abs(&mut sim.replicants[1].pos, (0, 0), 0));
    sim.act(&vec![vec![Action::IncX], vec![Action::IncX, Action::IncX]]);
    assert_eq!(sim.replicants[0].pos, (2, 0));
    assert_eq!(sim.replicants[1].pos, (1, 0));
    assert_eq!(sim.replicants[1].moves, 1);
    sim.act(&vec![vec![Action::DecX, Action::IncY], vec![Action::DecX, Action::DecX]]);
    assert_eq!(sim.replicants[0].pos, (2, 0));
    assert_eq!(sim.replicants[1].pos, (0, 0));
    assert_eq!(sim.replicants[0].moves, 1);
    assert_eq!(sim.replicants[1].moves, 2);
}

#[test]
fn no_two_agents_ever_share_a_cell() {
    for (seed, clip) in [(1u64, None), (2, Some((9, 7))), (3, None), (4, Some((12, 12)))] {
        let mut rng = RandomSource::new(seed);
        let reps: Vec<Replicant> = (0..40).map(|_| random_agent(&mut rng)).collect();
        let mut sim = world(9, 7, clip, reps);
        assert!(sim.setup(&mut rng));
        assert_one_agent_a_cell(&sim);
        let mut moved = 0;
        for _ in 0..150 {
            sim.tick(&mut rng);
            assert_one_agent_a_cell(&sim);
        }
        for r in sim.replicants.iter() {
            moved += r.moves;
            assert_eq!(r.time, 150);
        }
        assert!(moved > 0);
    }
}

#[test]
fn the_same_seed_gives_the_same_run() {
    let run = |seed: u64| {
        let mut rng = RandomSource::new(seed);
        let reps: Vec<Replicant> = (0..30).map(|_| random_agent(&mut rng)).collect();
        let mut sim = world(8, 8, None, reps);
        assert!(sim.setup(&mut rng));
        let mut trace = vec![];
        for _ in 0..50 {
            sim.tick(&mut rng);
            let places: Vec<(i32, i32)> = sim.replicants.iter().map(|r| r.pos).collect();
            trace.push(places);
        }
        (trace, rng)
    };
    let (a, ra) = run(42);
    let (b, rb) = run(42);
    let (c, _) = run(43);
    assert_eq!(a, b);
    assert_eq!(ra, rb);
    assert_ne!(a, c);
    assert_ne!(a[0], a[49]);
}
