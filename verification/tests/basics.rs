use replicants::actions::Action;
use replicants::assoc::distinct;
use replicants::assoc::find;
use replicants::genome::HasGenome;
use replicants::input::NeighbourType;
use replicants::input::Sensor;
use replicants::net::NetGenome;
use replicants::net::NetNodes;
use replicants::net::NeuralLink;
use replicants::net::NeuralSource;
use replicants::net::NeuralTarget;
use replicants::replicant::offset_cell;
use replicants::replicant::Replicant;
use replicants::rng::RandomSource;
use replicants::world::World;

#[test]
fn actions_are_listed_round() {
    let list = [Action::IncX, Action::DecX, Action::IncY, Action::DecY];
    for i in 0..40u32 {
        assert_eq!(Action::from_index(i), list[(i % 4) as usize]);
    }
    assert_eq!(Action::from_index(u32::MAX), Action::DecY);
    assert_eq!(Action::IncX.offset(), (1, 0));
    assert_eq!(Action::DecX.offset(), (-1, 0));
    assert_eq!(Action::IncY.offset(), (0, 1));
    assert_eq!(Action::DecY.offset(), (0, -1));
    let mut rng = RandomSource::new(12);
    let mut check = RandomSource::new(12);
    for _ in 0..20 {
        assert_eq!(Action::sample(&mut rng), list[(check.next_u32() % 4) as usize]);
    }
}

#[test]
fn neighbour_kinds_are_picked_from_four() {
    assert_eq!(NeighbourType::pick(7, 0), NeighbourType::Any);
    assert_eq!(NeighbourType::pick(7, 5), NeighbourType::Friend);
    assert_eq!(NeighbourType::pick(7, 6), NeighbourType::Enemy);
    assert_eq!(NeighbourType::pick(7, 3), NeighbourType::Pool(1));
    assert_eq!(NeighbourType::pick(9, 7), NeighbourType::Pool(0));
    assert_eq!(NeighbourType::pick(u32::MAX, u32::MAX), NeighbourType::Pool(0));
    let mut rng = RandomSource::new(2);
    let mut check = RandomSource::new(2);
    for _ in 0..50 {
        let group = check.next_u32();
        let choice = check.next_u32();
        assert_eq!(NeighbourType::sample(&mut rng), NeighbourType::pick(group, choice));
    }
}

#[test]
fn sensors_are_picked_from_place_and_neighbour() {
    let mut rng = RandomSource::new(19);
    let mut check = RandomSource::new(19);
    let mut places = 0;
    for _ in 0..200 {
        let d: Vec<u32> = (0..6).map(|_| check.next_u32()).collect();
        let coin = |x: u32| x >= 0x8000_0000;
        let expected = if d[5] % 2 == 0 {
            places += 1;
            Sensor::Loc { x: coin(d[0]) }
        } else {
            Sensor::Neighbour {
                vert: coin(d[1]),
                incr: coin(d[2]),
                kind: NeighbourType::pick(d[3], d[4]),
            }
        };
        assert_eq!(Sensor::sample(&mut rng), expected);
    }
    assert_eq!(rng.position, 1200);
    assert!(places > 50 && places < 150);
}

#[test]
fn lists_find_the_first_place_of_a_key() {
    let list: Vec<(u64, char)> = vec![(3, 'a'), (5, 'b'), (3, 'c')];
    assert_eq!(find(&list, &3), Some(0));
    assert_eq!(find(&list, &5), Some(1));
    assert_eq!(find(&list, &4), None);
    assert!(!distinct(&list));
    assert!(distinct(&list[..2].to_vec()));
    assert!(distinct(&Vec::<(u64, char)>::new()));
}

#[test]
fn a_target_gets_one_neuron() {
    let mut nodes = NetNodes::new();
    nodes.create_link_node(&NeuralTarget::Neuron(3));
    nodes.create_link_node(&NeuralTarget::Action(Action::IncX));
    nodes.neurons[0].1.charge = 77;
    nodes.create_link_node(&NeuralTarget::Neuron(3));
    let now: Vec<(NeuralTarget, i32)> = nodes.neurons.iter().map(|n| (n.0, n.1.charge)).collect();
    assert_eq!(
        now,
        vec![(NeuralTarget::Neuron(3), 77), (NeuralTarget::Action(Action::IncX), 0)]
    );
}

#[test]
fn offsets_stop_where_coordinates_end() {
    assert_eq!(offset_cell((3, 4), 1, -1), Some((4, 3)));
    assert_eq!(offset_cell((i32::MAX, 0), 1, 0), None);
    assert_eq!(offset_cell((0, i32::MIN), 0, -1), None);
    assert_eq!(offset_cell((i32::MAX, i32::MIN), -1, 1), Some((i32::MAX - 1, i32::MIN + 1)));
    assert_eq!(offset_cell((i32::MIN, 0), i32::MAX, i32::MAX), Some((-1, i32::MAX)));
}

#[test]
fn an_agent_is_born_at_the_origin_with_the_network_of_its_genome() {
    let mut g = NetGenome::new();
    g.color = [1, 2, 3];
    g.link(
        NeuralSource::Sensor(Sensor::Random),
        NeuralTarget::Action(Action::IncY),
        NeuralLink { inverse: true, weight: 9 },
    );
    let rep = Replicant::from_genome(&g);
    assert_eq!((rep.pos, rep.time, rep.moves), ((0, 0), 0, 0));
    assert_eq!(rep.net.pool(), 2);
    let back = rep.to_genome();
    assert_eq!(back.color, [1, 2, 3]);
    assert_eq!(back.nodes.len(), 1);
    assert_eq!(back.nodes[0].0, NeuralTarget::Action(Action::IncY));
    assert_eq!(
        back.nodes[0].1.inputs,
        vec![(NeuralSource::Sensor(Sensor::Random), NeuralLink { inverse: true, weight: 9 })]
    );
    assert_eq!(rep.net.sensors, vec![(Sensor::Random, 0)]);
}

#[test]
fn default_world_has_no_cells() {
    let w = World::default();
    assert_eq!((w.width, w.height), (0, 0));
}

#[test]
fn genome_check_refuses_repeats_and_colours_out_of_range() {
    let mut g = NetGenome::new();
    g.link(
        NeuralSource::Sensor(Sensor::Random),
        NeuralTarget::Action(Action::IncY),
        NeuralLink { inverse: true, weight: 9 },
    );
    assert!(g.check());
    let mut twice = g.clone();
    let again = twice.nodes[0].1.clone();
    twice.nodes.push((NeuralTarget::Action(Action::IncY), again));
    assert!(!twice.check());
    let mut doubled = g.clone();
    let first = doubled.nodes[0].1.inputs[0];
    doubled.nodes[0].1.inputs.push(first);
    assert!(!doubled.check());
    let mut pale = g.clone();
    pale.color = [0, -1, 0];
    assert!(!pale.check());
    pale.color = [0, 1000, 0];
    assert!(pale.check());
}
