use replicants::actions::Action;
use replicants::genome::HasGenome;
use replicants::input::Sensor;
use replicants::net::color_group;
use replicants::net::squash;
use replicants::net::Net;
use replicants::net::NetGenome;
use replicants::net::NeuralLink;
use replicants::net::NeuralSource;
use replicants::net::NeuralTarget;
use replicants::net::Neuron;
use replicants::rng::RandomSource;

fn link(weight: i32, inverse: bool) -> NeuralLink {
    NeuralLink { inverse, weight }
}

#[test]
fn tangent_is_exact_at_the_knots() {
    assert_eq!(squash(0), 0);
    assert_eq!(squash(250), 245);
    assert_eq!(squash(500), 462);
    assert_eq!(squash(1000), 762);
    assert_eq!(squash(2000), 964);
    assert_eq!(squash(3750), 999);
    assert_eq!(squash(4000), 1000);
    assert_eq!(squash(1_000_000), 1000);
}

#[test]
fn tangent_is_a_line_between_knots_and_odd() {
    assert_eq!(squash(125), 122);
    assert_eq!(squash(-125), -122);
    assert_eq!(squash(555), 500);
    assert_eq!(squash(557), 501);
    assert_eq!(squash(3999), 999);
    assert_eq!(squash(-4000), -1000);
    assert_eq!(squash(i64::MIN), -1000);
}

#[test]
fn discharge_leaves_nine_tenths() {
    let mut n = Neuron { charge: 1000 };
    n.discharge();
    assert_eq!(n.charge, 900);
    let mut m = Neuron { charge: -15 };
    m.discharge();
    assert_eq!(m.charge, -13);
    let mut z = Neuron::new();
    z.discharge();
    assert_eq!(z.charge, 0);
}

#[test]
fn neuron_fires_above_the_threshold_and_loses_its_charge() {
    let mut quiet = Neuron { charge: 555 };
    assert_eq!(quiet.output(), 500);
    assert!(!quiet.fires());
    assert_eq!(quiet.charge, 555);
    let mut loud = Neuron { charge: 557 };
    assert!(loud.fires());
    assert_eq!(loud.charge, 0);
    let mut low = Neuron { charge: -2000 };
    assert_eq!(low.output(), -964);
    assert!(low.fires());
    assert_eq!(low.charge, 0);
}

#[test]
fn synapse_weighs_its_signal() {
    assert_eq!(link(2000, false).output(500), 762);
    assert_eq!(link(2000, false).output(0), 0);
    assert_eq!(link(2000, false).output(-500), -762);
    assert_eq!(link(2000, true).output(500), 762);
    assert_eq!(link(2000, true).output(1000), 0);
    assert_eq!(link(2000, true).output(0), 964);
    assert_eq!(link(250, false).output(1000), 245);
    assert_eq!(link(i32::MAX, false).output(i32::MAX), 1000);
    assert_eq!(link(i32::MAX, true).output(i32::MAX), -1000);
}

#[test]
fn new_link_has_a_weight_below_four() {
    let mut rng = RandomSource::new(11);
    let mut check = RandomSource::new(11);
    for _ in 0..200 {
        let l = NeuralLink::new(&mut rng);
        let w = check.next_u32() % 4000;
        let inv = check.next_u32() >= 0x8000_0000;
        assert_eq!(l.weight, w as i32);
        assert_eq!(l.inverse, inv);
        assert!(0 <= l.weight && l.weight < 4000);
    }
}

#[test]
fn new_network_is_black_but_for_one_channel() {
    for seed in 0..50u64 {
        let mut rng = RandomSource::new(seed);
        let mut check = RandomSource::new(seed);
        let net = Net::new(&mut rng);
        let channel = (check.next_u32() % 3) as usize;
        let value = (check.next_u32() % 1000) as i32;
        let mut color = [0, 0, 0];
        color[channel] = value;
        assert_eq!(net.genome.color, color);
        assert!(net.genome.nodes.is_empty());
        assert!(net.check());
        assert_eq!(rng, check);
    }
}

#[test]
fn network_edits_start_the_network_afresh() {
    let mut rng = RandomSource::new(3);
    let mut net = Net::new(&mut rng);
    net.add_link_from_sensor(Sensor::Alive, NeuralTarget::Neuron(2), &mut rng);
    net.add_hidden_link(2, NeuralTarget::Action(Action::IncX), &mut rng);
    net.add_hidden_link(5, NeuralTarget::Neuron(6), &mut rng);
    assert_eq!(net.genome.nodes.len(), 3);
    assert_eq!(net.nodes.neurons.len(), 3);
    assert_eq!(net.sensors, vec![(Sensor::Alive, 0)]);
    net.tick(&vec![(Sensor::Alive, 1000)]);
    net.clear();
    let kept: Vec<NeuralTarget> = net.genome.nodes.iter().map(|n| n.0).collect();
    assert_eq!(kept, vec![NeuralTarget::Neuron(2), NeuralTarget::Action(Action::IncX)]);
    assert!(net.nodes.neurons.iter().all(|n| n.1.charge == 0));
    assert!(net.check());
    let before = net.genome.nodes.len();
    net.randomize(&mut rng);
    assert!(net.check());
    assert!(net.genome.nodes.len() + 1 >= before);
    assert_eq!(net.genome.pool(), net.pool());
}

#[test]
fn group_is_the_greatest_channel_lowest_on_a_tie() {
    assert_eq!(color_group(&[5, 5, 1]), 0);
    assert_eq!(color_group(&[1, 5, 5]), 1);
    assert_eq!(color_group(&[1, 2, 3]), 2);
    assert_eq!(color_group(&[0, 0, 0]), 0);
    assert_eq!(color_group(&[7, 7, 7]), 0);
    assert_eq!(color_group(&[3, 9, 4]), 1);
}

fn sample_genome() -> NetGenome {
    let mut g = NetGenome::new();
    g.color = [100, 900, 300];
    g.link(
        NeuralSource::Sensor(Sensor::Bias(127)),
        NeuralTarget::Neuron(3),
        link(3000, false),
    );
    g.link(NeuralSource::Hidden(3), NeuralTarget::Action(Action::IncX), link(3500, false));
    g.link(
        NeuralSource::Sensor(Sensor::Loc { x: true }),
        NeuralTarget::Action(Action::IncX),
        link(10, true),
    );
    g
}

fn nodes_of(g: &NetGenome) -> Vec<(NeuralTarget, Vec<(NeuralSource, NeuralLink)>)> {
    g.nodes.iter().map(|n| (n.0, n.1.inputs.clone())).collect()
}

#[test]
fn link_binds_in_the_node_of_the_target() {
    let g = sample_genome();
    let nodes = nodes_of(&g);
    assert_eq!(nodes.len(), 2);
    assert_eq!(nodes[0].0, NeuralTarget::Neuron(3));
    assert_eq!(nodes[0].1, vec![(NeuralSource::Sensor(Sensor::Bias(127)), link(3000, false))]);
    assert_eq!(nodes[1].0, NeuralTarget::Action(Action::IncX));
    assert_eq!(nodes[1].1.len(), 2);
    let mut h = sample_genome();
    h.link(NeuralSource::Hidden(3), NeuralTarget::Action(Action::IncX), link(1, true));
    let again = nodes_of(&h);
    assert_eq!(again[1].1.len(), 2);
    assert_eq!(again[1].1[0], (NeuralSource::Hidden(3), link(1, true)));
}

#[test]
fn genome_round_trip_is_lossless() {
    let g = sample_genome();
    let net = Net::from_genome(&g);
    let back = net.to_genome();
    assert_eq!(back.color, g.color);
    assert_eq!(nodes_of(&back), nodes_of(&g));
    assert_eq!(net.pool(), 1);
    let again = Net::from_genome(&back).to_genome();
    assert_eq!(nodes_of(&again), nodes_of(&g));
}

#[test]
fn grown_network_has_resting_neurons_and_a_slot_for_each_sensor() {
    let mut g = sample_genome();
    g.link(
        NeuralSource::Sensor(Sensor::Bias(127)),
        NeuralTarget::Action(Action::DecY),
        link(5, false),
    );
    let net = Net::from_genome(&g);
    let neurons: Vec<(NeuralTarget, i32)> =
        net.nodes.neurons.iter().map(|n| (n.0, n.1.charge)).collect();
    assert_eq!(
        neurons,
        vec![
            (NeuralTarget::Neuron(3), 0),
            (NeuralTarget::Action(Action::IncX), 0),
            (NeuralTarget::Action(Action::DecY), 0)
        ]
    );
    assert_eq!(net.sensors, vec![(Sensor::Bias(127), 0), (Sensor::Loc { x: true }, 0)]);
}

#[test]
fn hidden_signal_takes_one_tick_to_arrive() {
    let mut g = NetGenome::new();
    g.link(
        NeuralSource::Sensor(Sensor::Bias(1)),
        NeuralTarget::Neuron(0),
        link(4000, false),
    );
    g.link(NeuralSource::Hidden(0), NeuralTarget::Action(Action::IncY), link(4000, false));
    let mut net = Net::from_genome(&g);
    let input = vec![(Sensor::Bias(1), 1000)];
    let first = net.tick(&input);
    assert_eq!(first, Vec::<Action>::new());
    assert_eq!(net.nodes.neurons[0].1.charge, 0);
    assert_eq!(net.nodes.neurons[1].1.charge, 0);
    assert_eq!(net.sensors, vec![(Sensor::Bias(1), 1000)]);
    let mut slow = Net::from_genome(&g);
    let weak = vec![(Sensor::Bias(1), 100)];
    let fired = slow.tick(&weak);
    assert_eq!(fired, Vec::<Action>::new());
    assert_eq!(slow.nodes.neurons[0].1.charge, 375);
    assert_eq!(slow.nodes.neurons[0].1.output(), 353);
    assert_eq!(slow.nodes.neurons[1].1.charge, 0);
    let fired = slow.tick(&weak);
    assert_eq!(fired, vec![Action::IncY]);
    assert_eq!(slow.nodes.neurons[0].1.charge, 0);
    assert_eq!(slow.nodes.neurons[1].1.charge, 0);
    let mut faint = Net::from_genome(&g);
    let low = vec![(Sensor::Bias(1), 25)];
    faint.tick(&low);
    assert_eq!(faint.nodes.neurons[0].1.charge, 98);
    let fired = faint.tick(&low);
    assert_eq!(fired, Vec::<Action>::new());
    assert_eq!(faint.nodes.neurons[0].1.charge, 88 + 98);
    assert_eq!(faint.nodes.neurons[1].1.charge, 361);
}

#[test]
fn drive_is_the_mean_of_the_synapses() {
    let mut g = NetGenome::new();
    g.link(
        NeuralSource::Sensor(Sensor::Bias(1)),
        NeuralTarget::Action(Action::IncX),
        link(1000, false),
    );
    g.link(
        NeuralSource::Sensor(Sensor::Bias(2)),
        NeuralTarget::Action(Action::IncX),
        link(1000, false),
    );
    g.link(
        NeuralSource::Sensor(Sensor::Null),
        NeuralTarget::Action(Action::IncX),
        link(1000, false),
    );
    let mut net = Net::from_genome(&g);
    let fired = net.tick(&vec![(Sensor::Bias(1), 250), (Sensor::Bias(2), 500)]);
    assert_eq!(fired, Vec::<Action>::new());
    assert_eq!(net.nodes.neurons[0].1.charge, (245 + 462 + 0) / 3);
    net.tick(&vec![(Sensor::Bias(1), 250), (Sensor::Bias(2), 500)]);
    assert_eq!(net.nodes.neurons[0].1.charge, 235 * 9 / 10 + 235);
}

#[test]
fn quiet_action_never_fires_in_ten_thousand_ticks() {
    let mut g = NetGenome::new();
    g.link(
        NeuralSource::Sensor(Sensor::Bias(0)),
        NeuralTarget::Action(Action::IncX),
        link(3999, false),
    );
    g.link(NeuralSource::Hidden(9), NeuralTarget::Action(Action::DecX), link(3999, false));
    g.link(
        NeuralSource::Sensor(Sensor::Random),
        NeuralTarget::Neuron(9),
        link(3999, false),
    );
    let mut net = Net::from_genome(&g);
    let input: Vec<(Sensor, i32)> = vec![];
    for _ in 0..10_000 {
        let fired = net.tick(&input);
        assert!(fired.is_empty());
    }
    for n in net.nodes.neurons.iter() {
        assert_eq!(n.1.charge, 0);
    }
}

#[test]
fn only_action_nodes_are_listed_and_each_once() {
    let mut g = NetGenome::new();
    for a in [Action::DecY, Action::IncX, Action::IncY, Action::DecX] {
        g.link(NeuralSource::Sensor(Sensor::Alive), NeuralTarget::Action(a), link(3000, false));
    }
    g.link(NeuralSource::Sensor(Sensor::Alive), NeuralTarget::Neuron(1), link(3000, false));
    let mut net = Net::from_genome(&g);
    let fired = net.tick(&vec![(Sensor::Alive, 1000)]);
    assert_eq!(fired, vec![Action::DecY, Action::IncX, Action::IncY, Action::DecX]);
    for n in net.nodes.neurons.iter() {
        assert_eq!(n.1.charge, 0);
    }
}
