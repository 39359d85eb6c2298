use replicants::actions::Action;
use replicants::input::Sensor;
use replicants::net::NeuralLink;
use replicants::net::NeuralSource;
use replicants::net::NeuralSourceGenome;
use replicants::net::NeuralTarget;
use replicants::pool::Allele;
use replicants::pool::GenePool;
use replicants::pool::Score;

type Pool = GenePool<NeuralTarget, NeuralSourceGenome>;

fn node(inputs: &[(NeuralSource, i32)]) -> NeuralSourceGenome {
    let mut n = NeuralSourceGenome::new();
    for (s, w) in inputs {
        n.insert(*s, NeuralLink { inverse: false, weight: *w });
    }
    n
}

fn hid(h: u32) -> NeuralSource {
    NeuralSource::Hidden(h)
}

fn bias(b: i8) -> NeuralSource {
    NeuralSource::Sensor(Sensor::Bias(b))
}

fn act(a: Action) -> NeuralTarget {
    NeuralTarget::Action(a)
}

fn built(pool: &Pool, genes: &Vec<NeuralTarget>) -> Vec<(NeuralTarget, Vec<(NeuralSource, NeuralLink)>)>
{
    pool.build(genes).iter().map(|e| (e.0, e.1.inputs.clone())).collect()
}

#[test]
fn score_is_the_running_average() {
    let mut s = Score::new();
    assert_eq!(s, Score { avg: 0, tot: 0, count: 0 });
    s.record(1000);
    assert_eq!(s, Score { avg: 1000, tot: 1000, count: 1 });
    s.record(2000);
    assert_eq!(s, Score { avg: 1500, tot: 3000, count: 2 });
    s.record(0);
    assert_eq!(s, Score { avg: 1000, tot: 3000, count: 3 });
    assert!(s.check());
    assert!(!Score { avg: 7, tot: 3000, count: 3 }.check());
}

#[test]
fn full_score_stays_as_it_is() {
    let mut s = Score { avg: 1, tot: u64::MAX - 5, count: u64::MAX - 5 };
    assert!(s.try_record(5));
    assert_eq!(s.tot, u64::MAX);
    let before = s;
    assert!(!s.try_record(1));
    assert_eq!(s, before);
    let mut t = Score { avg: 0, tot: 0, count: u64::MAX };
    assert!(!t.try_record(0));
}

#[test]
fn identity_ignores_the_order_of_the_synapses() {
    let a = node(&[(bias(1), 100), (hid(2), 200), (bias(3), 300)]);
    let b = node(&[(bias(3), 300), (bias(1), 100), (hid(2), 200)]);
    let c = node(&[(bias(1), 100), (hid(2), 200), (bias(3), 301)]);
    assert_eq!(a.get_allele_id(), b.get_allele_id());
    assert_ne!(a.get_allele_id(), c.get_allele_id());
    assert_eq!(node(&[]).get_allele_id(), 0);
    assert_ne!(node(&[(bias(0), 0)]).get_allele_id(), 0);
}

#[test]
fn identity_is_the_sum_of_the_digests_of_the_synapses() {
    let one = node(&[(hid(7), 250)]);
    assert_eq!(one.get_allele_id(), 9928412261262013296);
    let mut other = NeuralSourceGenome::new();
    other.insert(bias(1), NeuralLink { inverse: true, weight: -3 });
    assert_eq!(other.get_allele_id(), 3060905668393252980);
    let mut both = node(&[(hid(7), 250)]);
    both.insert(bias(1), NeuralLink { inverse: true, weight: -3 });
    assert_eq!(both.get_allele_id(), 12989317929655266276);
    let look = NeuralSource::Sensor(Sensor::Neighbour {
        vert: true,
        incr: false,
        kind: replicants::input::NeighbourType::Pool(2),
    });
    assert_eq!(node(&[(look, 0)]).get_allele_id(), 17988615849308659569);
}

#[test]
fn a_node_requires_the_hidden_nodes_it_reads() {
    let n = node(&[(bias(1), 1), (hid(4), 2), (hid(2), 3)]);
    assert_eq!(
        n.get_gene_requirements(),
        vec![NeuralTarget::Neuron(4), NeuralTarget::Neuron(2)]
    );
    assert!(node(&[(bias(1), 1)]).get_gene_requirements().is_empty());
}

#[test]
fn record_keeps_one_entry_for_each_allele() {
    let mut pool = Pool::new();
    let gene = act(Action::IncX);
    pool.record(&gene, node(&[(bias(1), 1)]), 1000);
    pool.record(&gene, node(&[(bias(1), 1)]), 3000);
    pool.record(&gene, node(&[(bias(2), 1)]), 500);
    pool.record(&NeuralTarget::Neuron(1), node(&[(bias(2), 1)]), 0);
    assert_eq!(pool.get_genes(), vec![gene, NeuralTarget::Neuron(1)]);
    assert_eq!(pool.genes[0].1.len(), 2);
    assert_eq!(pool.genes[0].1[0].1 .1, Score { avg: 2000, tot: 4000, count: 2 });
    assert_eq!(pool.genes[0].1[1].1 .1, Score { avg: 500, tot: 500, count: 1 });
    assert_eq!(pool.genes[1].1[0].1 .1, Score { avg: 0, tot: 0, count: 1 });
    assert_eq!(pool.genes[0].1[0].0, node(&[(bias(1), 1)]).get_allele_id());
    assert!(pool.check());
}

#[test]
fn build_takes_the_best_allele_the_later_on_a_tie() {
    let mut pool = Pool::new();
    let gene = act(Action::IncX);
    pool.record(&gene, node(&[(bias(1), 1)]), 1000);
    pool.record(&gene, node(&[(bias(2), 2)]), 3000);
    pool.record(&gene, node(&[(bias(3), 3)]), 2000);
    assert_eq!(built(&pool, &vec![gene]), vec![(gene, node(&[(bias(2), 2)]).inputs)]);
    pool.record(&gene, node(&[(bias(3), 3)]), 4000);
    assert_eq!(built(&pool, &vec![gene]), vec![(gene, node(&[(bias(3), 3)]).inputs)]);
    pool.record(&gene, node(&[(bias(1), 1)]), 5000);
    assert_eq!(built(&pool, &vec![gene]), vec![(gene, node(&[(bias(3), 3)]).inputs)]);
}

#[test]
fn build_pulls_in_what_the_chosen_alleles_require_and_nothing_else() {
    let mut pool = Pool::new();
    pool.record(&act(Action::IncX), node(&[(hid(1), 1)]), 1000);
    pool.record(&NeuralTarget::Neuron(1), node(&[(hid(2), 1), (hid(9), 1)]), 1000);
    pool.record(&NeuralTarget::Neuron(2), node(&[(bias(1), 1)]), 1000);
    pool.record(&NeuralTarget::Neuron(3), node(&[(bias(1), 1)]), 9000);
    pool.record(&act(Action::DecX), node(&[(hid(3), 1)]), 9000);
    let got = built(&pool, &vec![act(Action::IncX), act(Action::IncY)]);
    let genes: Vec<NeuralTarget> = got.iter().map(|e| e.0).collect();
    assert_eq!(
        genes,
        vec![act(Action::IncX), NeuralTarget::Neuron(1), NeuralTarget::Neuron(2)]
    );
    assert!(built(&pool, &vec![act(Action::IncY)]).is_empty());
    assert!(built(&pool, &vec![]).is_empty());
    assert!(built(&Pool::new(), &vec![act(Action::IncX)]).is_empty());
}

#[test]
fn build_ends_on_cyclic_requirements() {
    let mut pool = Pool::new();
    pool.record(&NeuralTarget::Neuron(1), node(&[(hid(2), 1)]), 1000);
    pool.record(&NeuralTarget::Neuron(2), node(&[(hid(1), 1), (hid(2), 5)]), 1000);
    pool.record(&act(Action::IncX), node(&[(hid(1), 1)]), 1000);
    let got = built(&pool, &vec![act(Action::IncX), NeuralTarget::Neuron(2), act(Action::IncX)]);
    let genes: Vec<NeuralTarget> = got.iter().map(|e| e.0).collect();
    assert_eq!(
        genes,
        vec![act(Action::IncX), NeuralTarget::Neuron(1), NeuralTarget::Neuron(2)]
    );
}

#[test]
fn prune_drops_alleles_below_the_mean_of_a_large_table() {
    let mut pool = Pool::new();
    let big = act(Action::IncX);
    let small = act(Action::DecX);
    pool.record(&big, node(&[(bias(1), 1)]), 1000);
    pool.record(&big, node(&[(bias(2), 1)]), 2000);
    pool.record(&big, node(&[(bias(3), 1)]), 3000);
    pool.record(&big, node(&[(bias(4), 1)]), 1999);
    pool.record(&small, node(&[(bias(1), 1)]), 1);
    pool.record(&small, node(&[(bias(2), 1)]), 1000);
    pool.prune();
    let left: Vec<u64> = pool.genes[0].1.iter().map(|e| e.1 .1.avg).collect();
    assert_eq!(left, vec![2000, 3000, 1999]);
    assert_eq!(pool.genes[1].1.len(), 2);
    pool.prune();
    let left: Vec<u64> = pool.genes[0].1.iter().map(|e| e.1 .1.avg).collect();
    assert_eq!(left, vec![3000]);
    assert!(pool.check());
}

#[test]
fn check_refuses_a_pool_with_a_wrong_identity() {
    let mut pool = Pool::new();
    pool.record(&act(Action::IncX), node(&[(bias(1), 1)]), 1000);
    assert!(pool.check());
    pool.genes[0].1[0].0 ^= 1;
    assert!(!pool.check());
}
