use rand::rngs::StdRng;
use rand::SeedableRng;
use virusnetwork_exploration::error::ExplorationError;
use virusnetwork_exploration::fitness::Fitness;
use virusnetwork_exploration::individual::Individual;
use virusnetwork_exploration::network::Topology;
use virusnetwork_exploration::selection::{eliminate, selection, weigh};

fn lone_nodes(count: u32) -> Topology {
    let raw: Vec<Option<Vec<(u32, u32)>>> = (0..count).map(|_| None).collect();
    Topology::assemble(count, &raw).unwrap()
}

fn scored(id: u64, numerator: u32, denominator: u32) -> Individual {
    let mut individual = Individual::new(id, vec![0, 1, 0, 1], lone_nodes(4)).unwrap();
    individual.record_fitness(Fitness::new(numerator, denominator).unwrap());
    individual
}

#[test]
fn selection_keeps_the_fitter_of_two() {
    for seed in 0..50u64 {
        let mut rng = StdRng::seed_from_u64(seed);
        let mut population = vec![scored(0, 9, 10), scored(1, 1, 10)];
        assert_eq!(selection(&mut population, &mut rng), Ok(()));
        assert_eq!(population.len(), 1);
        assert_eq!(population[0].id(), 0);
        let kept = population[0].fitness().unwrap();
        assert_eq!((kept.numerator(), kept.denominator()), (9, 10));
    }
}

#[test]
fn selection_fails_on_all_zero_fitness() {
    let mut rng = StdRng::seed_from_u64(7);
    let mut population = vec![scored(0, 0, 1), scored(1, 0, 5), scored(2, 0, 9), scored(3, 0, 2)];
    assert_eq!(selection(&mut population, &mut rng), Err(ExplorationError::DegenerateWeights));
    assert_eq!(population.len(), 4);
    let ids: Vec<u64> = population.iter().map(|i| i.id()).collect();
    assert_eq!(ids, vec![0, 1, 2, 3]);
}

#[test]
fn weights_are_floor_of_hundredfold_fitness() {
    let population = vec![scored(0, 9, 10), scored(1, 1, 3), scored(2, 1, 1), scored(3, 0, 1), scored(4, 199, 200)];
    assert_eq!(weigh(&population), vec![90u128, 33, 100, 0, 99]);
}

#[test]
fn eliminate_pairs_first_with_second_and_others_with_predecessor() {
    let mut population = vec![scored(0, 5, 10), scored(1, 7, 10), scored(2, 6, 10)];
    let mut weights = weigh(&population);
    assert_eq!(eliminate(&mut population, &mut weights, 0), 0);
    assert_eq!(weights, vec![70u128, 60]);
    let mut population = vec![scored(0, 5, 10), scored(1, 7, 10), scored(2, 6, 10)];
    let mut weights = weigh(&population);
    assert_eq!(eliminate(&mut population, &mut weights, 2), 2);
    assert_eq!(weights, vec![50u128, 70]);
    let mut population = vec![scored(0, 5, 10), scored(1, 7, 10), scored(2, 6, 10)];
    let mut weights = weigh(&population);
    assert_eq!(eliminate(&mut population, &mut weights, 1), 0);
    assert_eq!(weights, vec![70u128, 60]);
}

#[test]
fn eliminate_removes_the_partner_on_a_tie() {
    let mut population = vec![scored(0, 1, 2), scored(1, 2, 4), scored(2, 3, 6)];
    let mut weights = weigh(&population);
    assert_eq!(eliminate(&mut population, &mut weights, 1), 0);
    let ids: Vec<u64> = population.iter().map(|i| i.id()).collect();
    assert_eq!(ids, vec![1, 2]);
    let mut population = vec![scored(0, 1, 2), scored(1, 2, 4), scored(2, 3, 6)];
    let mut weights = weigh(&population);
    assert_eq!(eliminate(&mut population, &mut weights, 0), 1);
    let ids: Vec<u64> = population.iter().map(|i| i.id()).collect();
    assert_eq!(ids, vec![0, 2]);
}

#[test]
fn selection_halves_an_even_population_and_keeps_its_order() {
    for seed in 0..40u64 {
        let mut rng = StdRng::seed_from_u64(seed);
        let mut population: Vec<Individual> =
            (0..10).map(|k| scored(k, 1 + ((k as u32 * 7) % 10), 10)).collect();
        assert_eq!(selection(&mut population, &mut rng), Ok(()));
        assert_eq!(population.len(), 5);
        let ids: Vec<u64> = population.iter().map(|i| i.id()).collect();
        assert!(ids.windows(2).all(|w| w[0] < w[1]));
        let best = population.iter().map(|i| i.fitness().unwrap().numerator()).max();
        assert_eq!(best, Some(10));
        for individual in &population {
            assert_eq!(individual.positions(), &vec![0, 1, 0, 1]);
        }
    }
}

#[test]
fn selection_leaves_one_or_no_individual_alone() {
    let mut rng = StdRng::seed_from_u64(1);
    let mut population = vec![scored(4, 0, 1)];
    assert_eq!(selection(&mut population, &mut rng), Ok(()));
    assert_eq!(population.len(), 1);
    let mut nobody: Vec<Individual> = Vec::new();
    assert_eq!(selection(&mut nobody, &mut rng), Ok(()));
    assert!(nobody.is_empty());
}

#[test]
fn an_individual_without_weight_is_never_drawn() {
    for seed in 0..60u64 {
        let mut rng = StdRng::seed_from_u64(seed);
        let mut population = vec![scored(0, 0, 1), scored(1, 0, 1), scored(2, 0, 1), scored(3, 1, 2)];
        assert_eq!(selection(&mut population, &mut rng), Ok(()));
        let ids: Vec<u64> = population.iter().map(|i| i.id()).collect();
        assert_eq!(ids, vec![0, 3]);
    }
}

#[test]
fn an_unevaluated_individual_weighs_nothing() {
    let fresh = Individual::new(9, vec![0, 1, 0, 1], lone_nodes(4)).unwrap();
    assert_eq!(weigh(&vec![fresh, scored(1, 1, 2)]), vec![0u128, 50]);
}
