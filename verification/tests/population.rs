use replicants::actions::Action;
use replicants::breeding::assemble;
use replicants::breeding::breed;
use replicants::genome::HasGenome;
use replicants::input::Sensor;
use replicants::net::NetGenome;
use replicants::net::NeuralLink;
use replicants::net::NeuralSource;
use replicants::net::NeuralSourceGenome;
use replicants::net::NeuralTarget;
use replicants::pool::Allele;
use replicants::pool::GenePool;
use replicants::pool::Score;
use replicants::replicant::Replicant;
use replicants::replicant::Survival;
use replicants::rng::RandomSource;
use replicants::rng::random;
use replicants::server::Server;
use replicants::server::round_limit;

fn link(weight: i32) -> NeuralLink {
    NeuralLink { inverse: false, weight }
}

fn agent(color: [i32; 3], pos: (i32, i32)) -> Replicant {
    let mut g = NetGenome::new();
    g.color = color;
    g.link(
        NeuralSource::Sensor(Sensor::Null),
        NeuralTarget::Action(Action::IncX),
        link(color[0] + 1),
    );
    g.link(NeuralSource::Hidden(1), NeuralTarget::Action(Action::IncX), link(7));
    g.link(NeuralSource::Sensor(Sensor::Null), NeuralTarget::Neuron(1), link(9));
    let mut r = Replicant::from_genome(&g);
    r.pos = pos;
    r
}

fn places(server: &Server) -> Vec<(i32, i32)> {
    server.sim.replicants.iter().map(|r| r.pos).collect()
}

#[test]
fn new_wants_a_world_with_room_for_the_population() {
    assert!(Server::new(0, 5, 0, 1, Survival::Crowd).is_none());
    assert!(Server::new(5, -1, 0, 1, Survival::Crowd).is_none());
    assert!(Server::new(5, 5, 26, 1, Survival::Crowd).is_none());
    let s = Server::new(5, 5, 25, 9, Survival::EastHalf).unwrap();
    assert_eq!(s.generation, 0);
    assert_eq!(s.time, 0);
    assert_eq!(s.pop_size, 25);
    assert_eq!(s.sim.world.width, 5);
    assert_eq!(s.sim.rule, Survival::EastHalf);
    assert_eq!(s.rng, RandomSource { seed: 9, position: 0 });
    assert_eq!(s.gene_pools.len(), 3);
    assert!(s.sim.replicants.is_empty());
    assert!(s.check());
    assert!(Server::new(i32::MAX, i32::MAX, usize::MAX, 1, Survival::Crowd).is_none());
}

#[test]
fn default_is_eighty_by_eighty_with_three_thousand_agents() {
    let s = Server::default();
    assert_eq!((s.sim.world.width, s.sim.world.height), (80, 80));
    assert_eq!(s.pop_size, 3000);
    assert_eq!(s.rng.seed, 123);
    assert_eq!(s.sim.rule, Survival::Crowd);
    assert!(s.check());
}

#[test]
fn default_population_ticks() {
    let mut s = Server::default();
    for t in 1..=3 {
        s.tick();
        assert_eq!(s.time, t);
        assert_eq!(s.sim.replicants.len(), 3000);
    }
    assert!(s.check());
    assert!(s.sim.replicants.iter().all(|r| {
        0 <= r.pos.0 && r.pos.0 < 80 && 0 <= r.pos.1 && r.pos.1 < 80 && r.time == 3
    }));
}

#[test]
fn a_round_lasts_three_hundred_ticks_and_a_random_extra() {
    let mut seen = vec![];
    for generation in 0..200usize {
        let limit = round_limit(generation);
        assert_eq!(limit, 300 + (random(generation as u64) % 50) as usize);
        assert!(300 <= limit && limit < 350);
        seen.push(limit);
    }
    seen.sort();
    seen.dedup();
    assert!(seen.len() > 10);
}

#[test]
fn first_tick_founds_and_scatters_the_population() {
    let mut s = Server::new(6, 6, 20, 5, Survival::Crowd).unwrap();
    s.tick();
    assert_eq!(s.time, 1);
    assert_eq!(s.generation, 0);
    assert_eq!(s.sim.replicants.len(), 20);
    assert_eq!(s.sim.mapper.clip(), None);
    assert!(s.check());
    assert!(s.sim.check());
    for r in s.sim.replicants.iter() {
        assert_eq!(r.time, 1);
        assert!(!r.net.genome.nodes.is_empty());
        assert!(r.net.genome.color.iter().all(|c| 0 <= *c && *c <= 1000));
    }
    let mut rng = RandomSource::new(5);
    let mut first = NetGenome::new();
    first.randomize(&mut rng);
    first.randomize_color(&mut rng);
    assert_eq!(s.sim.replicants[0].net.genome.color, first.color);
    assert_eq!(s.sim.replicants[0].net.genome.nodes.len(), first.nodes.len());
}

#[test]
fn population_keeps_its_size_over_five_generations() {
    let mut s = Server::new(9, 9, 31, 2, Survival::EastHalf).unwrap();
    let mut ticks = 0;
    let mut ends = 0;
    while s.generation < 5 {
        let before = (s.generation, s.time);
        let over = s.round_over();
        assert_eq!(over, s.time > round_limit(s.generation));
        s.tick();
        ticks += 1;
        assert_eq!(s.sim.replicants.len(), 31);
        if over {
            ends += 1;
            assert_eq!((s.generation, s.time), (before.0 + 1, 1));
            for (i, r) in s.sim.replicants.iter().enumerate() {
                let g = if i < 11 {
                    0
                } else if i < 21 {
                    1
                } else {
                    2
                };
                assert_eq!(r.net.pool(), g);
                let mut color = [0, 0, 0];
                color[g] = 1000;
                assert_eq!(r.net.genome.color, color);
                assert_eq!(r.time, 1);
                assert!(r.moves <= 4);
            }
        } else {
            assert_eq!((s.generation, s.time), (before.0, before.1 + 1));
        }
        if ticks % 97 == 0 || over {
            assert!(s.check());
            assert!(s.sim.check());
        }
    }
    assert_eq!(ends, 5);
    let before_the_last_end: usize = (0..5).map(|g| round_limit(g) + 1).sum();
    assert_eq!(ticks, before_the_last_end + 1);
    assert_eq!(s.rng.seed, 2);
    assert!(s.gene_pools.iter().any(|p| !p.genes.is_empty()));
}

#[test]
fn the_same_seed_gives_the_same_generations() {
    let run = |seed: u64| {
        let mut s = Server::new(8, 8, 24, seed, Survival::EastHalf).unwrap();
        let mut trace = vec![];
        for _ in 0..400 {
            s.tick();
            trace.push(places(&s));
        }
        (trace, s.rng, s.generation)
    };
    let (a, ra, ga) = run(11);
    let (b, rb, gb) = run(11);
    let (c, _, _) = run(12);
    assert_eq!(ga, 1);
    assert_eq!(a, b);
    assert_eq!((ra, ga), (rb, gb));
    assert_ne!(a, c);
}

#[test]
fn survivors_are_listed_by_group() {
    let mut s = Server::new(10, 10, 6, 1, Survival::EastHalf).unwrap();
    s.sim.replicants = vec![
        agent([1000, 0, 0], (9, 0)),
        agent([0, 1000, 0], (5, 1)),
        agent([1000, 0, 0], (4, 2)),
        agent([0, 0, 1000], (0, 3)),
        agent([1000, 0, 0], (5, 4)),
        agent([0, 1000, 0], (6, 5)),
    ];
    assert_eq!(s.get_pools(), vec![vec![0, 4], vec![1, 5], vec![]]);
}

#[test]
fn scoring_records_every_node_with_the_fitness_of_its_agent() {
    let mut s = Server::new(10, 10, 6, 1, Survival::EastHalf).unwrap();
    s.sim.replicants = vec![
        agent([1000, 0, 0], (9, 0)),
        agent([0, 1000, 0], (5, 1)),
        agent([1000, 0, 0], (4, 2)),
        agent([0, 0, 1000], (0, 3)),
        agent([1000, 0, 0], (5, 4)),
        agent([0, 1000, 0], (6, 5)),
    ];
    s.score_genes();
    assert_eq!(s.prev_survival, [2, 2, 0]);
    assert!(s.check());
    let red = &s.gene_pools[0];
    assert_eq!(
        red.get_genes(),
        vec![NeuralTarget::Action(Action::IncX), NeuralTarget::Neuron(1)]
    );
    assert_eq!(red.genes[0].1.len(), 1);
    assert_eq!(red.genes[0].1[0].1 .1, Score { avg: 4000 / 3, tot: 4000, count: 3 });
    assert_eq!(red.genes[1].1[0].1 .1, Score { avg: 4000 / 3, tot: 4000, count: 3 });
    assert_eq!(red.genes[0].1[0].0, s.sim.replicants[0].net.genome.nodes[0].1.get_allele_id());
    let green = &s.gene_pools[1];
    assert_eq!(green.genes[0].1[0].1 .1, Score { avg: 2000, tot: 4000, count: 2 });
    let blue = &s.gene_pools[2];
    assert_eq!(blue.genes[0].1[0].1 .1, Score { avg: 0, tot: 0, count: 1 });
    assert_ne!(red.genes[0].1[0].0, green.genes[0].1[0].0);
}

fn node(inputs: &[(NeuralSource, i32)]) -> NeuralSourceGenome {
    let mut n = NeuralSourceGenome::new();
    for (s, w) in inputs {
        n.insert(*s, link(*w));
    }
    n
}

#[test]
fn assemble_asks_the_pool_for_the_action_genes() {
    let mut pool: GenePool<NeuralTarget, NeuralSourceGenome> = GenePool::new();
    let bias = NeuralSource::Sensor(Sensor::Bias(1));
    pool.record(&NeuralTarget::Neuron(5), node(&[(bias, 1)]), 9000);
    pool.record(&NeuralTarget::Neuron(6), node(&[(bias, 2)]), 9000);
    pool.record(&NeuralTarget::Action(Action::DecY), node(&[(NeuralSource::Hidden(6), 3)]), 10);
    pool.record(&NeuralTarget::Action(Action::DecY), node(&[(bias, 4)]), 5);
    pool.record(&NeuralTarget::Action(Action::IncX), node(&[(bias, 5)]), 0);
    let g = assemble(&pool, 1);
    assert_eq!(g.color, [0, 1000, 0]);
    let nodes: Vec<(NeuralTarget, Vec<(NeuralSource, NeuralLink)>)> =
        g.nodes.iter().map(|n| (n.0, n.1.inputs.clone())).collect();
    assert_eq!(
        nodes,
        vec![
            (NeuralTarget::Action(Action::DecY), vec![(NeuralSource::Hidden(6), link(3))]),
            (NeuralTarget::Neuron(6), vec![(bias, link(2))]),
            (NeuralTarget::Action(Action::IncX), vec![(bias, link(5))]),
        ]
    );
    let empty = assemble(&GenePool::new(), 2);
    assert_eq!(empty.color, [0, 0, 1000]);
    assert!(empty.nodes.is_empty());
}

#[test]
fn a_batch_mutates_on_the_draws_that_reach_the_threshold() {
    let mut genome = NetGenome::new();
    genome.color = [0, 0, 1000];
    let mut rng = RandomSource::new(6);
    let mut out = vec![agent([1, 2, 3], (4, 5))];
    breed(&mut genome, 50, 600, &mut rng, &mut out);
    assert_eq!(out.len(), 51);
    assert_eq!(out[0].pos, (4, 5));
    let mut check = RandomSource::new(6);
    let mut mirror = NetGenome::new();
    let mut mutated = 0;
    for child in out.iter().skip(1) {
        if check.next_u32() % 1000 >= 600 {
            mirror.randomize(&mut check);
            mutated += 1;
        }
        assert_eq!(child.net.genome.nodes.len(), mirror.nodes.len());
        assert_eq!(child.net.genome.color, [0, 0, 1000]);
        assert_eq!((child.pos, child.time, child.moves), ((0, 0), 0, 0));
        assert!(child.net.check());
    }
    assert_eq!(rng, check);
    assert!(mutated > 5 && mutated < 45);
    assert_eq!(genome.nodes.len(), mirror.nodes.len());
    let mut never = vec![];
    breed(&mut NetGenome::new(), 20, 1000, &mut RandomSource::new(1), &mut never);
    assert!(never.iter().all(|r: &Replicant| r.net.genome.nodes.is_empty()));
}

#[test]
fn reproduction_shares_the_population_among_the_groups() {
    for (pop, shares) in [(10usize, [4usize, 3, 3]), (9, [3, 3, 3]), (2, [1, 1, 0]), (0, [0, 0, 0]), (605, [202, 202, 201])] {
        let mut s = Server::new(30, 30, pop, 1, Survival::Crowd).unwrap();
        s.sim.replicants = vec![agent([1000, 0, 0], (0, 0))];
        s.replace_replicants_v2();
        assert_eq!(s.sim.replicants.len(), pop);
        let mut counted = [0usize; 3];
        let mut last = 0;
        for r in s.sim.replicants.iter() {
            let g = r.net.pool();
            assert!(g >= last);
            last = g;
            counted[g] += 1;
        }
        assert_eq!(counted, shares);
    }
}

#[test]
fn check_refuses_a_state_that_ticking_cannot_reach() {
    let mut s = Server::new(6, 6, 10, 3, Survival::Crowd).unwrap();
    for _ in 0..5 {
        s.tick();
    }
    assert!(s.check());
    let mut late = Server::new(6, 6, 10, 3, Survival::Crowd).unwrap();
    late.tick();
    late.time = 351;
    assert!(!late.check());
    let mut clash = Server::new(6, 6, 10, 3, Survival::Crowd).unwrap();
    clash.tick();
    clash.sim.replicants[0].pos = clash.sim.replicants[1].pos;
    assert!(!clash.check());
    let mut short = Server::new(6, 6, 10, 3, Survival::Crowd).unwrap();
    short.tick();
    short.sim.replicants.pop();
    assert!(!short.check());
    let mut busy = Server::new(6, 6, 10, 3, Survival::Crowd).unwrap();
    busy.tick();
    busy.sim.replicants[3].moves = 5;
    assert!(!busy.check());
    let mut odd = Server::new(6, 6, 10, 3, Survival::Crowd).unwrap();
    odd.tick();
    odd.sim.replicants[3].net.genome.color[0] = 1001;
    assert!(!odd.check());
}
