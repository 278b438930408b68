use rand::rngs::StdRng;
use rand::SeedableRng;
use sbrga::error::EngineError;
use sbrga::selection::rank_weights;
use sbrga::selection::Selector;
use sbrga::selection::WEIGHT_ONE;

#[test]
fn the_weight_of_a_rank_is_one_over_rank_plus_bias() {
    assert_eq!(WEIGHT_ONE, 4294967296);
    assert_eq!(rank_weights(4, 1), vec![4294967296, 2147483648, 1431655765, 1073741824]);
    assert_eq!(rank_weights(3, 50), vec![85899345, 84215045, 82595524]);
    assert_eq!(rank_weights(0, 50), Vec::<u64>::new());
    assert_eq!(rank_weights(2, u32::MAX), vec![1, 1]);
}

#[test]
fn a_better_rank_never_weighs_less() {
    for bias in [1u32, 2, 50, 1000, 4000000000] {
        let w = rank_weights(250, bias);
        assert_eq!(w.len(), 250);
        for pair in w.windows(2) {
            assert!(pair[0] >= pair[1]);
        }
        assert!(w[0] >= 1);
    }
}

#[test]
fn a_selector_needs_somebody_to_choose_and_a_bias() {
    assert_eq!(Selector::new(0, 50).err(), Some(EngineError::InvalidConfiguration));
    assert_eq!(Selector::new(10, 0).err(), Some(EngineError::InvalidConfiguration));
    assert_eq!(Selector::new(0, 0).err(), Some(EngineError::InvalidConfiguration));
    assert!(Selector::new(1, 1).is_ok());
    assert!(Selector::new(250, 50).is_ok());
}

#[test]
fn a_population_of_one_always_gives_its_only_member() {
    let s = Selector::new(1, 50).unwrap();
    let mut rng = StdRng::seed_from_u64(2);
    for _ in 0..100 {
        assert_eq!(s.pick(&mut rng), 0);
    }
}

#[test]
fn a_better_rank_is_chosen_at_least_as_often() {
    let mut rng = StdRng::seed_from_u64(2024);
    let s = Selector::new(8, 1).unwrap();
    let mut seen = [0usize; 8];
    for _ in 0..200000 {
        let rank = s.pick(&mut rng);
        assert!(rank < 8);
        seen[rank] += 1;
    }
    for pair in seen.windows(2) {
        assert!(pair[0] >= pair[1], "frequencies {:?}", seen);
    }
    for rank in 1..8 {
        assert!(seen[0] >= seen[rank]);
    }
    // rank 0 weighs 1 of 1 + 1/2 + ... + 1/8 = 2.7179
    assert!(seen[0] > 72000 && seen[0] < 75000, "frequencies {:?}", seen);
    assert!(seen[7] > 8600 && seen[7] < 9800, "frequencies {:?}", seen);
}

#[test]
fn a_great_bias_makes_the_ranks_alike() {
    let mut rng = StdRng::seed_from_u64(7);
    let s = Selector::new(4, 1000000).unwrap();
    let mut seen = [0usize; 4];
    for _ in 0..40000 {
        seen[s.pick(&mut rng)] += 1;
    }
    for count in seen {
        assert!(count > 9500 && count < 10500, "frequencies {:?}", seen);
    }
}

#[test]
fn a_rank_without_weight_is_never_chosen() {
    // With the greatest bias, ranks 0 and 1 weigh one unit each and rank 2 nothing.
    let w = rank_weights(3, u32::MAX);
    assert_eq!(w, vec![1, 1, 0]);
    let s = Selector::new(3, u32::MAX).unwrap();
    let mut rng = StdRng::seed_from_u64(1);
    let mut seen = [0usize; 3];
    for _ in 0..1000 {
        seen[s.pick(&mut rng)] += 1;
    }
    assert_eq!(seen[2], 0);
    assert!(seen[0] > 400 && seen[1] > 400, "frequencies {:?}", seen);
}
