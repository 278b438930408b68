use sbrga::checkpoint::Checkpoints;
use sbrga::stagnation::Stagnation;

#[test]
fn progress_leaves_the_countdown_alone() {
    let mut s = Stagnation { countdown: 3, recovery: 2 };
    for _ in 0..10 {
        assert!(!s.observe(false));
        assert_eq!(s, Stagnation { countdown: 3, recovery: 2 });
    }
    let mut used_up = Stagnation { countdown: 0, recovery: 2 };
    assert!(!used_up.observe(false));
    assert_eq!(used_up.countdown, 0);
}

#[test]
fn a_countdown_of_fifty_asks_for_a_mutation_at_the_fifty_first_check() {
    let mut s = Stagnation { countdown: 50, recovery: 25 };
    for check in 1..=50 {
        assert!(!s.observe(true), "check {}", check);
        assert_eq!(s.countdown, 50 - check);
    }
    assert_eq!(s.countdown, 0);
    assert!(s.observe(true));
    assert_eq!(s, Stagnation { countdown: 25, recovery: 25 });
    for check in 1..=25 {
        assert!(!s.observe(true), "check {}", check);
    }
    assert!(s.observe(true));
    assert_eq!(s.countdown, 25);
}

#[test]
fn progress_in_between_does_not_restart_the_countdown() {
    let mut s = Stagnation { countdown: 2, recovery: 1 };
    assert!(!s.observe(true));
    assert!(!s.observe(false));
    assert!(!s.observe(true));
    assert!(!s.observe(false));
    assert_eq!(s.countdown, 0);
    assert!(s.observe(true));
    assert_eq!(s.countdown, 1);
}

#[test]
fn a_countdown_of_zero_asks_at_once() {
    let mut s = Stagnation { countdown: 0, recovery: 0 };
    assert!(s.observe(true));
    assert!(s.observe(true));
    assert_eq!(s, Stagnation { countdown: 0, recovery: 0 });
}

#[test]
fn generations_of_the_list_and_of_the_step_are_saved() {
    let c = Checkpoints { save_generation: vec![3, 7, 100], save_generation_step: 10 };
    let due: Vec<usize> = (1..=30).filter(|g| c.is_due(*g)).collect();
    assert_eq!(due, vec![3, 7, 10, 20, 30]);
    assert!(c.is_due(100));
    assert!(c.is_due(0));
    assert!(!c.is_due(101));
}

#[test]
fn a_step_of_zero_names_no_generation() {
    let c = Checkpoints { save_generation: vec![4], save_generation_step: 0 };
    let due: Vec<usize> = (0..=20).filter(|g| c.is_due(*g)).collect();
    assert_eq!(due, vec![4]);
    let none = Checkpoints { save_generation: vec![], save_generation_step: 0 };
    assert!(!(0..=20).any(|g| none.is_due(g)));
    let every = Checkpoints { save_generation: vec![], save_generation_step: 1 };
    assert!((0..=20).all(|g| every.is_due(g)));
}
