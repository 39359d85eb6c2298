use replicants::actions::Action;
use replicants::genome::Genome;
use replicants::input::Sensor;
use replicants::mutation::NetMutations;
use replicants::net::NetGenome;
use replicants::net::NeuralLink;
use replicants::net::NeuralSource;
use replicants::net::NeuralTarget;
use replicants::rng::RandomSource;

fn link(weight: i32) -> NeuralLink {
    NeuralLink { inverse: false, weight }
}

fn shape(g: &NetGenome) -> Vec<(NeuralTarget, Vec<(NeuralSource, NeuralLink)>)> {
    g.nodes.iter().map(|n| (n.0, n.1.inputs.clone())).collect()
}

fn sensor() -> NeuralSource {
    NeuralSource::Sensor(Sensor::Alive)
}

#[test]
fn edits_are_picked_three_to_one() {
    let mut rng = RandomSource::new(3);
    let mut check = RandomSource::new(3);
    for _ in 0..300 {
        let kind = NetMutations::sample(&mut rng);
        let k = check.next_u32() % 15;
        let expected = if k < 3 {
            NetMutations::AddLinkFromSensorToAction
        } else if k < 6 {
            NetMutations::AddLinkFromSensorToHidden
        } else if k < 9 {
            NetMutations::AddLinkFromHiddenToHidden
        } else if k < 12 {
            NetMutations::AddLinkFromHiddenToAction
        } else if k == 12 {
            NetMutations::RemoveLinkFromSensor
        } else if k == 13 {
            NetMutations::RemoveLinkFromHidden
        } else {
            NetMutations::AddHidden
        };
        assert_eq!(kind, expected);
    }
}

#[test]
fn sensor_to_action_always_applies() {
    let mut g = NetGenome::new();
    let mut rng = RandomSource::new(17);
    let mut check = RandomSource::new(17);
    assert!(NetMutations::AddLinkFromSensorToAction.mutate(&mut g, &mut rng));
    let s = Sensor::sample(&mut check);
    let a = Action::sample(&mut check);
    let l = NeuralLink::new(&mut check);
    assert_eq!(shape(&g), vec![(NeuralTarget::Action(a), vec![(NeuralSource::Sensor(s), l)])]);
    assert_eq!(rng, check);
    assert_eq!(rng.position, 9);
}

#[test]
fn edits_that_need_a_hidden_node_do_not_apply_without_one() {
    for kind in [
        NetMutations::AddLinkFromSensorToHidden,
        NetMutations::AddLinkFromHiddenToHidden,
        NetMutations::AddLinkFromHiddenToAction,
    ] {
        let mut g = NetGenome::new();
        g.link(sensor(), NeuralTarget::Action(Action::IncX), link(5));
        let before = shape(&g);
        let mut rng = RandomSource::new(1);
        assert!(!kind.mutate(&mut g, &mut rng));
        assert_eq!(shape(&g), before);
        assert_eq!(rng, RandomSource::new(1));
    }
}

#[test]
fn hidden_to_action_reads_a_hidden_node_that_exists() {
    let mut g = NetGenome::new();
    g.link(sensor(), NeuralTarget::Neuron(4), link(5));
    g.link(sensor(), NeuralTarget::Neuron(8), link(6));
    let mut rng = RandomSource::new(21);
    let mut check = RandomSource::new(21);
    assert!(NetMutations::AddLinkFromHiddenToAction.mutate(&mut g, &mut rng));
    let h = [4u32, 8u32][(check.next_u32() as usize) % 2];
    let a = Action::sample(&mut check);
    let l = NeuralLink::new(&mut check);
    let nodes = shape(&g);
    assert_eq!(nodes.len(), 3);
    assert_eq!(nodes[2], (NeuralTarget::Action(a), vec![(NeuralSource::Hidden(h), l)]));
    assert_eq!(rng, check);
}

#[test]
fn add_hidden_wires_a_hidden_node_from_a_sensor_into_an_action() {
    let mut g = NetGenome::new();
    let mut rng = RandomSource::new(77);
    let mut check = RandomSource::new(77);
    assert!(NetMutations::AddHidden.mutate(&mut g, &mut rng));
    let h = check.next_u32() % 10;
    let s = Sensor::sample(&mut check);
    let l1 = NeuralLink::new(&mut check);
    let a = Action::sample(&mut check);
    let l2 = NeuralLink::new(&mut check);
    assert_eq!(
        shape(&g),
        vec![
            (NeuralTarget::Neuron(h), vec![(NeuralSource::Sensor(s), l1)]),
            (NeuralTarget::Action(a), vec![(NeuralSource::Hidden(h), l2)]),
        ]
    );
    assert_eq!(rng.position, 12);
    assert_eq!(rng, check);
}

#[test]
fn removing_takes_out_one_synapse_of_the_kind() {
    let mut g = NetGenome::new();
    g.link(sensor(), NeuralTarget::Neuron(1), link(1));
    g.link(NeuralSource::Hidden(1), NeuralTarget::Action(Action::IncX), link(2));
    g.link(sensor(), NeuralTarget::Action(Action::IncX), link(3));
    g.link(NeuralSource::Hidden(1), NeuralTarget::Neuron(1), link(4));
    assert_eq!(g.link_places(true), vec![(0, 1), (1, 0)]);
    assert_eq!(g.link_places(false), vec![(0, 0), (1, 1)]);
    let mut rng = RandomSource::new(5);
    let pick = (RandomSource::new(5).next_u32() as usize) % 2;
    assert!(NetMutations::RemoveLinkFromHidden.mutate(&mut g, &mut rng));
    assert_eq!(rng.position, 1);
    let left = g.link_places(true);
    assert_eq!(left.len(), 1);
    assert_eq!(g.link_places(false).len(), 2);
    if pick == 0 {
        assert_eq!(shape(&g)[0].1, vec![(sensor(), link(1))]);
    } else {
        assert_eq!(shape(&g)[1].1, vec![(sensor(), link(3))]);
    }
    let mut none = NetGenome::new();
    let mut quiet = RandomSource::new(5);
    assert!(!NetMutations::RemoveLinkFromSensor.mutate(&mut none, &mut quiet));
    assert_eq!(quiet.position, 0);
}

#[test]
fn pruning_drops_hidden_nodes_that_feed_no_action() {
    let mut g = NetGenome::new();
    g.link(sensor(), NeuralTarget::Neuron(1), link(1));
    g.link(NeuralSource::Hidden(1), NeuralTarget::Neuron(2), link(2));
    g.link(NeuralSource::Hidden(2), NeuralTarget::Action(Action::DecX), link(3));
    g.link(sensor(), NeuralTarget::Neuron(3), link(4));
    g.link(NeuralSource::Hidden(3), NeuralTarget::Neuron(4), link(5));
    g.link(NeuralSource::Hidden(4), NeuralTarget::Neuron(3), link(6));
    g.clear();
    let kept: Vec<NeuralTarget> = g.nodes.iter().map(|n| n.0).collect();
    assert_eq!(
        kept,
        vec![
            NeuralTarget::Neuron(1),
            NeuralTarget::Neuron(2),
            NeuralTarget::Action(Action::DecX)
        ]
    );
}

#[test]
fn pruning_drops_nodes_without_synapses_and_keeps_long_chains() {
    let mut g = NetGenome::new();
    g.link(NeuralSource::Hidden(0), NeuralTarget::Action(Action::IncY), link(1));
    for h in 0..6u32 {
        g.link(NeuralSource::Hidden(h + 1), NeuralTarget::Neuron(h), link(1));
    }
    g.link(sensor(), NeuralTarget::Neuron(6), link(1));
    g.link(sensor(), NeuralTarget::Action(Action::IncX), link(1));
    assert!(g.remove_link(false, &mut RandomSource { seed: 0, position: 0 }));
    g.clear();
    let kept: Vec<NeuralTarget> = g.nodes.iter().map(|n| n.0).collect();
    assert!(kept.contains(&NeuralTarget::Action(Action::IncY)));
    for h in 0..6u32 {
        assert!(kept.contains(&NeuralTarget::Neuron(h)));
    }
    assert_eq!(
        kept.contains(&NeuralTarget::Neuron(6)),
        g.nodes.iter().any(|n| n.0 == NeuralTarget::Neuron(6) && !n.1.inputs.is_empty())
    );
    assert!(g.nodes.iter().all(|n| !n.1.inputs.is_empty()));
    assert!(g.check());
}

#[test]
fn randomize_is_repeatable_and_keeps_the_genome_well_formed() {
    let mut a = NetGenome::new();
    let mut b = NetGenome::new();
    let mut ra = RandomSource::new(2024);
    let mut rb = RandomSource::new(2024);
    for _ in 0..200 {
        a.randomize(&mut ra);
        b.randomize(&mut rb);
        assert!(a.check());
        assert_eq!(shape(&a), shape(&b));
        assert_eq!(ra, rb);
        assert_eq!(a.color, [0, 0, 0]);
        assert!(a.nodes.iter().all(|n| !n.1.inputs.is_empty()));
    }
    assert!(!a.nodes.is_empty());
}

#[test]
fn colour_shift_follows_the_two_draws() {
    let mut g = NetGenome::new();
    g.color = [500, 400, 950];
    let mut rng = RandomSource::new(31);
    let mut check = RandomSource::new(31);
    g.randomize_color(&mut rng);
    let i = (check.next_u32() % 3) as usize;
    let shift = ((check.next_u32() % 2001) as i32 - 1000) * 200 / 1000;
    let mut c = [500, 400, 950];
    let moved: i32 = c[i] + shift;
    c[i] = moved.abs().min(1000);
    let top = *c.iter().max().unwrap();
    for x in c.iter_mut() {
        if *x != top {
            *x = (*x - 100).max(0);
        }
    }
    assert_eq!(g.color, c);
    assert_eq!(rng.position, 2);
}

#[test]
fn colour_shift_mirrors_below_zero_and_stops_at_one() {
    for seed in 0..200u64 {
        let mut g = NetGenome::new();
        g.color = [0, 1000, 50];
        g.randomize_color(&mut RandomSource::new(seed));
        for c in g.color {
            assert!(0 <= c && c <= 1000);
        }
    }
}

#[test]
fn crossover_takes_nodes_from_the_parents_only() {
    for seed in 0..100u64 {
        let mut mine = NetGenome::new();
        mine.color = [1000, 0, 0];
        mine.link(sensor(), NeuralTarget::Action(Action::IncX), link(1));
        mine.link(sensor(), NeuralTarget::Neuron(1), link(2));
        let mut theirs = NetGenome::new();
        theirs.color = [0, 500, 1000];
        theirs.link(sensor(), NeuralTarget::Action(Action::IncX), link(3));
        theirs.link(sensor(), NeuralTarget::Action(Action::DecY), link(4));
        theirs.link(sensor(), NeuralTarget::Neuron(7), link(5));
        let mut rng = RandomSource::new(seed);
        let mut check = RandomSource::new(seed);
        let child = mine.mix(&theirs, &mut rng);
        let channel = (check.next_u32() % 3) as usize;
        let mut color = [1000, 0, 0];
        color[channel] = (mine.color[channel] + 9 * theirs.color[channel]) / 10;
        assert_eq!(child.color, color);
        let mut expected = shape(&mine);
        for node in shape(&theirs) {
            if check.next_u32() >= 0x8000_0000 {
                match expected.iter().position(|n| n.0 == node.0) {
                    Some(p) => expected[p] = node,
                    None => expected.push(node),
                }
            }
        }
        assert_eq!(shape(&child), expected);
        assert_eq!(rng, check);
        for node in child.nodes.iter() {
            let in_mine = mine.nodes.iter().any(|n| n.0 == node.0);
            let in_theirs = theirs.nodes.iter().any(|n| n.0 == node.0);
            assert!(in_mine || in_theirs);
        }
        assert!(child.check());
    }
}
