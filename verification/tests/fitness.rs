use virusnetwork_exploration::error::ExplorationError;
use virusnetwork_exploration::fitness::{Fitness, WEIGHT_SCALE};
use virusnetwork_exploration::probability::Probability;
use rand::rngs::StdRng;
use rand::SeedableRng;

#[test]
fn fitness_accepts_fractions_of_the_unit_interval_only() {
    assert!(Fitness::new(0, 1).is_some());
    assert!(Fitness::new(7, 7).is_some());
    assert!(Fitness::new(3, 0).is_none());
    assert!(Fitness::new(0, 0).is_none());
    assert!(Fitness::new(8, 7).is_none());
    let f = Fitness::new(97, 100).unwrap();
    assert_eq!((f.numerator(), f.denominator()), (97, 100));
    let z = Fitness::zero();
    assert_eq!((z.numerator(), z.denominator()), (0, 1));
    assert!(f.is_valid() && z.is_valid());
    assert!(Probability::always().is_valid());
}

#[test]
fn fitness_is_compared_as_a_fraction() {
    let half = Fitness::new(1, 2).unwrap();
    let also_half = Fitness::new(50, 100).unwrap();
    let third = Fitness::new(1, 3).unwrap();
    assert!(third.less_than(&half));
    assert!(!half.less_than(&third));
    assert!(!half.less_than(&also_half));
    assert!(half.at_least(&also_half));
    assert!(also_half.at_least(&half));
    assert!(!third.at_least(&half));
    let big = Fitness::new(4_294_967_294, 4_294_967_295).unwrap();
    let one = Fitness::new(4_294_967_295, 4_294_967_295).unwrap();
    assert!(big.less_than(&one));
    assert!(!one.less_than(&big));
}

#[test]
fn selection_weight_is_the_floor_of_a_hundred_times_the_score() {
    assert_eq!(WEIGHT_SCALE, 100);
    assert_eq!(Fitness::new(9, 10).unwrap().selection_weight(), 90);
    assert_eq!(Fitness::new(1, 10).unwrap().selection_weight(), 10);
    assert_eq!(Fitness::new(2, 3).unwrap().selection_weight(), 66);
    assert_eq!(Fitness::new(1, 101).unwrap().selection_weight(), 0);
    assert_eq!(Fitness::new(70, 100).unwrap().selection_weight(), 70);
    assert_eq!(Fitness::new(4_294_967_295, 4_294_967_295).unwrap().selection_weight(), 100);
    assert_eq!(Fitness::zero().selection_weight(), 0);
}

#[test]
fn probability_accepts_fractions_of_the_unit_interval_only() {
    assert!(Probability::new(5, 100).is_some());
    assert!(Probability::new(1, 0).is_none());
    assert!(Probability::new(3, 2).is_none());
    let p = Probability::new(5, 100).unwrap();
    assert_eq!((p.numerator(), p.denominator()), (5, 100));
    assert_eq!((Probability::always().numerator(), Probability::always().denominator()), (1, 1));
    assert_eq!((Probability::never().numerator(), Probability::never().denominator()), (0, 1));
}

#[test]
fn certain_and_impossible_draws_never_vary() {
    let mut rng = StdRng::seed_from_u64(11);
    let sure = Probability::new(9, 9).unwrap();
    let none = Probability::new(0, 9).unwrap();
    for _ in 0..2000 {
        assert!(sure.draw(&mut rng));
        assert!(Probability::always().draw(&mut rng));
        assert!(!none.draw(&mut rng));
        assert!(!Probability::never().draw(&mut rng));
    }
}

#[test]
fn an_even_chance_gives_both_answers() {
    let mut rng = StdRng::seed_from_u64(3);
    let even = Probability::new(1, 2).unwrap();
    let hits = (0..4000).filter(|_| even.draw(&mut rng)).count();
    assert!(hits > 1600 && hits < 2400);
}

#[test]
fn errors_tell_their_kind() {
    assert_eq!(ExplorationError::DegenerateWeights.name(), "DegenerateWeights");
    assert_eq!(ExplorationError::EvaluationFailure.name(), "EvaluationFailure");
    assert_eq!(ExplorationError::TopologyGenerationFailure.name(), "TopologyGenerationFailure");
    assert_eq!(ExplorationError::InvariantViolation.name(), "InvariantViolation");
    assert!(ExplorationError::DegenerateWeights.fatal());
    assert!(ExplorationError::InvariantViolation.fatal());
    assert!(!ExplorationError::EvaluationFailure.fatal());
    assert!(!ExplorationError::TopologyGenerationFailure.fatal());
}
