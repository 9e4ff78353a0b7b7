use bracket_lib::prelude::RandomNumberGenerator;
use gridgen::rng::stream;

fn draws(rng: &mut RandomNumberGenerator) -> Vec<i32> {
    (0..200).map(|_| rng.range(0, 1000000)).collect()
}

#[test]
fn stream_of_a_seed_is_the_seeded_stream() {
    for seed in [0u64, 1, 42, u64::MAX] {
        let mut ours = stream(Some(seed));
        let mut theirs = RandomNumberGenerator::seeded(seed);
        assert_eq!(draws(&mut ours), draws(&mut theirs));
    }
}

#[test]
fn stream_of_a_seed_is_the_same_every_time() {
    let first = draws(&mut stream(Some(7)));
    let second = draws(&mut stream(Some(7)));
    let other = draws(&mut stream(Some(8)));
    assert_eq!(first, second);
    assert_ne!(first, other);
}

#[test]
fn stream_without_a_seed_draws_in_range() {
    let mut rng = stream(None);
    for v in draws(&mut rng) {
        assert!((0..1000000).contains(&v));
    }
}
