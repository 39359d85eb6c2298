use rand::RngCore;
use rand::SeedableRng;
use rand_pcg::Pcg32;
use replicants::rng::random;
use replicants::rng::seed;
use replicants::rng::RandomSource;

#[test]
fn first_draw_is_the_first_output_of_the_seeded_generator() {
    for s in [0u64, 1, 123, 0xdead_beef, u64::MAX] {
        let mut generator = Pcg32::seed_from_u64(s);
        assert_eq!(random(s), generator.next_u32());
    }
}

#[test]
fn draws_follow_the_stream_of_the_seed() {
    let mut source = seed(123);
    let mut generator = Pcg32::seed_from_u64(123);
    for _ in 0..100 {
        assert_eq!(source.next_u32(), generator.next_u32());
    }
    assert_eq!(source.position, 100);
    assert_eq!(source.seed, 123);
}

#[test]
fn draws_differ_from_seed_and_position() {
    let mut source = RandomSource::new(7);
    let a = source.next_u32();
    let b = source.next_u32();
    assert_ne!(a as u64, 7);
    assert_ne!(a, b);
}

#[test]
fn position_wraps_at_the_end_of_the_period() {
    let mut source = RandomSource { seed: 5, position: u64::MAX };
    let last = source.next_u32();
    assert_eq!(source.position, 0);
    let mut generator = Pcg32::seed_from_u64(5);
    generator.advance(u64::MAX);
    assert_eq!(last, generator.next_u32());
    assert_eq!(source.next_u32(), random(5));
}

#[test]
fn below_and_coin_reduce_the_next_draw() {
    let mut a = RandomSource::new(99);
    let mut b = RandomSource::new(99);
    for _ in 0..50 {
        let draw = a.next_u32();
        assert_eq!(b.below(1000), draw % 1000);
    }
    let mut c = RandomSource::new(4);
    let mut d = RandomSource::new(4);
    for _ in 0..50 {
        let draw = c.next_u32();
        assert_eq!(d.coin(), draw >= 0x8000_0000);
    }
}
