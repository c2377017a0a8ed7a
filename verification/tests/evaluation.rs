use virusnetwork_exploration::error::ExplorationError;
use virusnetwork_exploration::evaluation::{evaluate_all, fitness, fitness_of, tally, SimulationOutcome, StatusCounts};
use virusnetwork_exploration::individual::Individual;
use virusnetwork_exploration::network::{NodeStatus, Topology};

fn lone_nodes(count: u32) -> Topology {
    let raw: Vec<Option<Vec<(u32, u32)>>> = (0..count).map(|_| None).collect();
    Topology::assemble(count, &raw).unwrap()
}

fn fresh(id: u64, count: u32) -> Individual {
    Individual::new(id, vec![0; count as usize], lone_nodes(count)).unwrap()
}

fn statuses(susceptible: usize, infected: usize, resistant: usize) -> Vec<NodeStatus> {
    let mut all = vec![NodeStatus::Susceptible; susceptible];
    all.extend(vec![NodeStatus::Resistant; resistant]);
    all.extend(vec![NodeStatus::Infected; infected]);
    all
}

#[test]
fn tally_counts_each_state() {
    let counts = tally(&statuses(3, 2, 5));
    assert_eq!(counts, StatusCounts { susceptible: 3, infected: 2, resistant: 5 });
    assert_eq!(tally(&vec![]), StatusCounts { susceptible: 0, infected: 0, resistant: 0 });
}

#[test]
fn fitness_is_one_minus_the_resistant_share() {
    let f = fitness_of(&StatusCounts { susceptible: 60, infected: 10, resistant: 30 }, 100).unwrap();
    assert_eq!((f.numerator(), f.denominator()), (70, 100));
    assert_eq!(f.selection_weight(), 70);
    let all = fitness_of(&StatusCounts { susceptible: 0, infected: 0, resistant: 4 }, 4).unwrap();
    assert_eq!((all.numerator(), all.denominator()), (0, 4));
    let none = fitness_of(&StatusCounts { susceptible: 1, infected: 3, resistant: 0 }, 4).unwrap();
    assert_eq!((none.numerator(), none.denominator()), (4, 4));
    let value = f.numerator() as f64 / f.denominator() as f64;
    assert!((value - (1.0 - 30.0 / 100.0)).abs() < 1e-12);
}

#[test]
fn fitness_stays_in_the_unit_interval() {
    for resistant in 0..=12usize {
        for infected in 0..=(12 - resistant) {
            let susceptible = 12 - resistant - infected;
            let f = fitness_of(&StatusCounts { susceptible, infected, resistant }, 12).unwrap();
            assert!(f.numerator() <= f.denominator());
            assert_eq!(f.denominator(), 12);
        }
    }
}

#[test]
fn counts_that_do_not_add_up_have_no_fitness() {
    assert!(fitness_of(&StatusCounts { susceptible: 1, infected: 1, resistant: 1 }, 4).is_none());
    assert!(fitness_of(&StatusCounts { susceptible: 2, infected: 2, resistant: 1 }, 4).is_none());
    assert!(fitness_of(&StatusCounts { susceptible: 0, infected: 0, resistant: 0 }, 0).is_none());
    assert!(fitness_of(
        &StatusCounts { susceptible: usize::MAX, infected: usize::MAX, resistant: 2 },
        0,
    )
    .is_none());
}

#[test]
fn evaluation_records_the_score() {
    let mut individual = fresh(5, 10);
    assert!(individual.fitness().is_none());
    let outcome = SimulationOutcome::Completed(statuses(6, 1, 3));
    let f = fitness(&mut individual, &outcome).unwrap();
    assert_eq!((f.numerator(), f.denominator()), (7, 10));
    let kept = individual.fitness().unwrap();
    assert_eq!((kept.numerator(), kept.denominator()), (7, 10));
    assert_eq!(individual.positions(), &vec![0; 10]);
    assert_eq!(individual.id(), 5);
}

#[test]
fn a_failed_simulation_gives_the_least_score() {
    let mut individual = fresh(5, 10);
    assert_eq!(fitness(&mut individual, &SimulationOutcome::Failed).err(), Some(ExplorationError::EvaluationFailure));
    let kept = individual.fitness().unwrap();
    assert_eq!((kept.numerator(), kept.denominator()), (0, 1));
    let short = SimulationOutcome::Completed(statuses(6, 1, 2));
    assert_eq!(fitness(&mut individual, &short).err(), Some(ExplorationError::EvaluationFailure));
    let mut nobody = fresh(6, 0);
    let empty = SimulationOutcome::Completed(vec![]);
    assert_eq!(fitness(&mut nobody, &empty).err(), Some(ExplorationError::EvaluationFailure));
}

#[test]
fn a_failure_does_not_touch_the_other_individuals() {
    let mut population = vec![fresh(0, 4), fresh(1, 4), fresh(2, 4)];
    let outcomes = vec![
        SimulationOutcome::Completed(statuses(2, 1, 1)),
        SimulationOutcome::Failed,
        SimulationOutcome::Completed(statuses(0, 0, 4)),
    ];
    assert_eq!(evaluate_all(&mut population, &outcomes), 1);
    let scores: Vec<(u32, u32)> = population
        .iter()
        .map(|i| (i.fitness().unwrap().numerator(), i.fitness().unwrap().denominator()))
        .collect();
    assert_eq!(scores, vec![(3, 4), (0, 1), (0, 4)]);
}
