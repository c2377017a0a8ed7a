use rand::rngs::StdRng;
use rand::SeedableRng;
use virusnetwork_exploration::config::RunConfig;
use virusnetwork_exploration::breeding::breed;
use virusnetwork_exploration::driver::{
    any_reaches, decide, Action, ExplorationDriver, Phase, StopReason, Verdict,
};
use virusnetwork_exploration::population::{all_genomes_have, all_valid, is_uniform};
use virusnetwork_exploration::history::{record_generation, GenerationResult};
use virusnetwork_exploration::error::ExplorationError;
use virusnetwork_exploration::evaluation::SimulationOutcome;
use virusnetwork_exploration::fitness::Fitness;
use virusnetwork_exploration::individual::Individual;
use virusnetwork_exploration::init::{found, init_population, random_genome};
use virusnetwork_exploration::generator::generate;
use virusnetwork_exploration::network::NodeStatus;
use virusnetwork_exploration::probability::Probability;

fn config(node_count: u32, population_size: usize, max_generations: u32) -> RunConfig {
    RunConfig {
        node_count,
        initial_edges_per_node: 1,
        population_size,
        mutation_rate: Probability::new(5, 100).unwrap(),
        desired_fitness: Fitness::new(95, 100).unwrap(),
        max_generations,
        simulation_step_count: 100,
        initial_resistant_probability: Probability::new(3, 10).unwrap(),
        abort_on_isolated_node: true,
    }
}

fn outcome(node_count: usize, resistant: usize) -> SimulationOutcome {
    let mut statuses = vec![NodeStatus::Resistant; resistant];
    statuses.extend(vec![NodeStatus::Susceptible; node_count - resistant]);
    SimulationOutcome::Completed(statuses)
}

#[test]
fn first_generation_has_the_configured_shape() {
    let mut rng = StdRng::seed_from_u64(1);
    let population = init_population(&config(20, 12, 3), &mut rng).unwrap();
    assert_eq!(population.len(), 12);
    for (k, individual) in population.iter().enumerate() {
        assert_eq!(individual.id(), k as u64);
        assert_eq!(individual.positions().len(), 20);
        assert!(individual.positions().iter().all(|&a| a <= 1));
        assert!(individual.fitness().is_none());
        assert_eq!(individual.network().node_count(), 20);
        assert!(individual.network().isolated_nodes().is_empty());
        for i in 0..20 {
            assert_eq!(individual.network().degree(i), population[0].network().degree(i));
        }
    }
    for individual in &population {
        for i in 0..20 {
            assert_eq!(individual.network().node(i).status, NodeStatus::Susceptible);
            assert_eq!(individual.network().node(i).id, i as u32);
        }
        assert_eq!(individual.network().edge_count(), 19);
    }
    assert!(all_genomes_have(&population, 20));
    assert!(!all_genomes_have(&population, 19));
    assert!(all_valid(&population));
    assert!(is_uniform(&population));
    assert!(population[0].is_valid());
    assert!(population[0].network().is_valid());
    assert!(config(20, 12, 3).is_valid());
    let mut mixed = init_population(&config(5, 2, 3), &mut rng).unwrap();
    mixed.extend(population);
    assert!(all_valid(&mixed));
    assert!(!is_uniform(&mixed));
    assert!(is_uniform(&Vec::new()));
}

#[test]
fn first_generation_may_not_be_empty() {
    let mut rng = StdRng::seed_from_u64(1);
    assert_eq!(init_population(&config(20, 0, 3), &mut rng).err(), Some(ExplorationError::InvariantViolation));
}

#[test]
fn isolated_nodes_abort_only_on_request() {
    let mut rng = StdRng::seed_from_u64(1);
    let mut strict = config(1, 3, 3);
    assert_eq!(init_population(&strict, &mut rng).err(), Some(ExplorationError::TopologyGenerationFailure));
    strict.abort_on_isolated_node = false;
    let population = init_population(&strict, &mut rng).unwrap();
    assert_eq!(population.len(), 3);
    assert_eq!(population[0].network().isolated_nodes(), vec![0]);
}

#[test]
fn random_genomes_follow_the_chance() {
    let mut rng = StdRng::seed_from_u64(6);
    assert_eq!(random_genome(7, &Probability::always(), &mut rng), vec![1; 7]);
    assert_eq!(random_genome(7, &Probability::never(), &mut rng), vec![0; 7]);
    let mixed = random_genome(2000, &Probability::new(3, 10).unwrap(), &mut rng);
    assert_eq!(mixed.len(), 2000);
    let ones: u32 = mixed.iter().sum();
    assert!(ones > 450 && ones < 750);
    assert!(mixed.iter().all(|&a| a <= 1));
    let topology = generate(6, 2).unwrap();
    let population = found(&topology, 4, &Probability::always(), &mut rng);
    assert_eq!(population.len(), 4);
    assert_eq!(population[3].id(), 3);
    assert_eq!(population[3].positions(), &vec![1; 6]);
}

#[test]
fn verdict_puts_convergence_before_exhaustion() {
    assert_eq!(decide(true, 0, 1), Verdict::Converged);
    assert_eq!(decide(true, 9, 1), Verdict::Converged);
    assert_eq!(decide(false, 0, 1), Verdict::Exhausted);
    assert_eq!(decide(false, 0, 0), Verdict::Exhausted);
    assert_eq!(decide(false, 0, 2), Verdict::Continue);
    assert_eq!(decide(false, 8, 10), Verdict::Continue);
    assert_eq!(decide(false, 9, 10), Verdict::Exhausted);
    assert_eq!(decide(false, u32::MAX, u32::MAX), Verdict::Exhausted);
}

#[test]
fn run_converges_on_generation_zero() {
    let mut rng = StdRng::seed_from_u64(1);
    let config = config(100, 6, 1);
    let population = init_population(&config, &mut rng).unwrap();
    let mut driver = ExplorationDriver::start(config, population).unwrap();
    assert_eq!(driver.phase(), Phase::Evaluating);
    assert_eq!(driver.generation(), 0);
    let mut outcomes: Vec<SimulationOutcome> = (0..5).map(|_| outcome(100, 40)).collect();
    outcomes.push(outcome(100, 3));
    let action = driver.advance(&outcomes, &mut rng);
    assert_eq!(action, Action::Stop(StopReason::Converged));
    assert_eq!(driver.phase(), Phase::Done(StopReason::Converged));
    assert_eq!(driver.generation(), 0);
    assert_eq!(driver.history().len(), 6);
    let best = driver.history()[5].fitness();
    assert_eq!((best.numerator(), best.denominator()), (97, 100));
    assert_eq!(driver.history()[5].generation(), 0);
    assert_eq!(driver.history()[5].positions(), driver.population()[5].positions());
    assert_eq!(driver.advance(&outcomes, &mut rng), Action::Stop(StopReason::Converged));
    assert_eq!(driver.history().len(), 6);
}

#[test]
fn run_is_exhausted_after_the_last_generation() {
    let mut rng = StdRng::seed_from_u64(1);
    let config = config(10, 6, 3);
    let population = init_population(&config, &mut rng).unwrap();
    let mut driver = ExplorationDriver::start(config, population).unwrap();
    let outcomes: Vec<SimulationOutcome> = (0..6).map(|k| outcome(10, 1 + k)).collect();
    assert_eq!(driver.advance(&outcomes, &mut rng), Action::Evaluate);
    assert_eq!(driver.generation(), 1);
    assert_eq!(driver.population().len(), 6);
    assert!(all_genomes_have(driver.population(), 10));
    assert_eq!(driver.advance(&outcomes, &mut rng), Action::Evaluate);
    assert_eq!(driver.generation(), 2);
    assert_eq!(driver.population().len(), 6);
    assert_eq!(driver.advance(&outcomes, &mut rng), Action::Stop(StopReason::Exhausted));
    assert_eq!(driver.generation(), 2);
    assert_eq!(driver.phase(), Phase::Done(StopReason::Exhausted));
    let generations: Vec<u32> = driver.history().iter().map(|line| line.generation()).collect();
    assert_eq!(generations, vec![0, 0, 0, 0, 0, 0, 1, 1, 1, 1, 1, 1, 2, 2, 2, 2, 2, 2]);
    let first: Vec<(u32, u32)> = driver.history()[..6]
        .iter()
        .map(|line: &GenerationResult| (line.fitness().numerator(), line.fitness().denominator()))
        .collect();
    assert_eq!(first, vec![(9, 10), (8, 10), (7, 10), (6, 10), (5, 10), (4, 10)]);
}

#[test]
fn newcomers_get_fresh_ids() {
    let mut rng = StdRng::seed_from_u64(1);
    let config = config(10, 7, 5);
    let population = init_population(&config, &mut rng).unwrap();
    let mut driver = ExplorationDriver::start(config, population).unwrap();
    let outcomes: Vec<SimulationOutcome> = (0..7).map(|k| outcome(10, 1 + k)).collect();
    assert_eq!(driver.advance(&outcomes, &mut rng), Action::Evaluate);
    let ids: Vec<u64> = driver.population().iter().map(|i| i.id()).collect();
    assert_eq!(ids.len(), 7);
    assert!(ids[..4].iter().all(|&id| id < 7));
    assert_eq!(&ids[4..], &[7, 8, 9]);
    assert!(driver.population()[4..].iter().all(|i| i.fitness().is_none()));
}

#[test]
fn run_aborts_when_nothing_can_be_selected() {
    let mut rng = StdRng::seed_from_u64(1);
    let config = config(10, 4, 5);
    let population = init_population(&config, &mut rng).unwrap();
    let mut driver = ExplorationDriver::start(config, population).unwrap();
    let outcomes: Vec<SimulationOutcome> = (0..4).map(|_| outcome(10, 10)).collect();
    let reason = StopReason::Aborted(ExplorationError::DegenerateWeights);
    assert_eq!(driver.advance(&outcomes, &mut rng), Action::Stop(reason));
    assert_eq!(driver.phase(), Phase::Done(reason));
    assert_eq!(driver.population().len(), 4);
    assert_eq!(driver.history().len(), 4);
}

#[test]
fn failed_evaluations_do_not_stop_the_run() {
    let mut rng = StdRng::seed_from_u64(1);
    let config = config(10, 4, 5);
    let population = init_population(&config, &mut rng).unwrap();
    let mut driver = ExplorationDriver::start(config, population).unwrap();
    let outcomes = vec![outcome(10, 2), SimulationOutcome::Failed, outcome(10, 5), SimulationOutcome::Failed];
    assert_eq!(driver.advance(&outcomes, &mut rng), Action::Evaluate);
    let scores: Vec<u32> = driver.history().iter().map(|line| line.fitness().numerator()).collect();
    assert_eq!(scores, vec![8, 0, 5, 0]);
}

#[test]
fn outcomes_must_match_the_population() {
    let mut rng = StdRng::seed_from_u64(1);
    let config = config(10, 4, 5);
    let population = init_population(&config, &mut rng).unwrap();
    let mut driver = ExplorationDriver::start(config, population).unwrap();
    let outcomes: Vec<SimulationOutcome> = (0..3).map(|_| outcome(10, 1)).collect();
    let reason = StopReason::Aborted(ExplorationError::InvariantViolation);
    assert_eq!(driver.advance(&outcomes, &mut rng), Action::Stop(reason));
    assert!(driver.history().is_empty());
}

#[test]
fn start_checks_size_and_genome_length() {
    let mut rng = StdRng::seed_from_u64(1);
    let population = init_population(&config(10, 4, 5), &mut rng).unwrap();
    assert_eq!(ExplorationDriver::start(config(10, 5, 5), population).err(), Some(ExplorationError::InvariantViolation));
    let population = init_population(&config(10, 4, 5), &mut rng).unwrap();
    assert_eq!(ExplorationDriver::start(config(11, 4, 5), population).err(), Some(ExplorationError::InvariantViolation));
    assert_eq!(ExplorationDriver::start(config(10, 0, 5), Vec::new()).err(), Some(ExplorationError::InvariantViolation));
    let population = init_population(&config(10, 4, 5), &mut rng).unwrap();
    let driver = ExplorationDriver::start(config(10, 4, 5), population).unwrap();
    assert_eq!(driver.config().population_size, 4);
}

#[test]
fn cancel_ends_a_waiting_run() {
    let mut rng = StdRng::seed_from_u64(1);
    let population = init_population(&config(10, 4, 5), &mut rng).unwrap();
    let mut driver = ExplorationDriver::start(config(10, 4, 5), population).unwrap();
    driver.cancel();
    assert_eq!(driver.phase(), Phase::Done(StopReason::Cancelled));
    let outcomes: Vec<SimulationOutcome> = (0..4).map(|_| outcome(10, 1)).collect();
    assert_eq!(driver.advance(&outcomes, &mut rng), Action::Stop(StopReason::Cancelled));
    assert_eq!(driver.population().len(), 4);
    driver.cancel();
    assert_eq!(driver.phase(), Phase::Done(StopReason::Cancelled));
}

#[test]
fn breed_keeps_the_population_size() {
    let mut rng = StdRng::seed_from_u64(3);
    for size in 1..9usize {
        let mut population = init_population(&config(8, size, 5), &mut rng).unwrap();
        for (k, individual) in population.iter_mut().enumerate() {
            individual.record_fitness(Fitness::new(1 + k as u32, 10).unwrap());
        }
        let next = breed(&mut population, size, &Probability::new(1, 2).unwrap(), 50, &mut rng).unwrap();
        assert_eq!(next, 50 + (size / 2) as u64);
        assert_eq!(population.len(), size);
        assert!(all_genomes_have(&population, 8));
    }
}

#[test]
fn breed_refuses_a_drifted_population() {
    let mut rng = StdRng::seed_from_u64(3);
    let mut population = init_population(&config(8, 4, 5), &mut rng).unwrap();
    let rate = Probability::never();
    assert_eq!(breed(&mut population, 5, &rate, 0, &mut rng), Err(ExplorationError::InvariantViolation));
    assert_eq!(breed(&mut population, 4, &rate, 0, &mut rng), Err(ExplorationError::DegenerateWeights));
    let mut nobody: Vec<Individual> = Vec::new();
    assert_eq!(breed(&mut nobody, 0, &rate, 0, &mut rng), Err(ExplorationError::InvariantViolation));
}

#[test]
fn selection_of_an_odd_population_keeps_the_larger_half() {
    let mut rng = StdRng::seed_from_u64(3);
    let mut population = init_population(&config(8, 5, 5), &mut rng).unwrap();
    for individual in population.iter_mut() {
        individual.record_fitness(Fitness::new(1, 2).unwrap());
    }
    assert_eq!(virusnetwork_exploration::selection::selection(&mut population, &mut rng), Ok(()));
    assert_eq!(population.len(), 3);
    let ids: Vec<u64> = population.iter().map(|i| i.id()).collect();
    assert!(ids.windows(2).all(|w| w[0] < w[1]));
}

#[test]
fn reaching_the_desired_fitness_counts_ties() {
    let mut rng = StdRng::seed_from_u64(3);
    let mut population = init_population(&config(8, 3, 5), &mut rng).unwrap();
    let desired = Fitness::new(1, 2).unwrap();
    assert!(!any_reaches(&population, &desired));
    assert!(any_reaches(&population, &Fitness::zero()));
    population[1].record_fitness(Fitness::new(4, 8).unwrap());
    assert!(any_reaches(&population, &desired));
    let mut history = Vec::new();
    record_generation(&mut history, &population, 4);
    assert_eq!(history.len(), 3);
    assert_eq!(history[1].generation(), 4);
    assert_eq!((history[1].fitness().numerator(), history[1].fitness().denominator()), (4, 8));
    assert_eq!((history[0].fitness().numerator(), history[0].fitness().denominator()), (0, 1));
}

#[test]
fn first_generation_fails_exactly_where_it_is_said_to() {
    let mut rng = StdRng::seed_from_u64(1);
    let mut options = config(0, 2, 3);
    let population = init_population(&options, &mut rng).unwrap();
    assert_eq!(population.len(), 2);
    assert!(population[0].positions().is_empty());
    options.node_count = 3;
    options.initial_edges_per_node = 0;
    assert_eq!(
        init_population(&options, &mut rng).err(),
        Some(ExplorationError::TopologyGenerationFailure)
    );
    options.node_count = 2;
    assert_eq!(init_population(&options, &mut rng).unwrap().len(), 2);
    options.node_count = 3;
    options.abort_on_isolated_node = false;
    let population = init_population(&options, &mut rng).unwrap();
    assert_eq!(population[0].network().isolated_nodes(), vec![2]);
    options.node_count = u32::MAX;
    assert_eq!(
        init_population(&options, &mut rng).err(),
        Some(ExplorationError::TopologyGenerationFailure)
    );
    options.population_size = 0;
    assert_eq!(
        init_population(&options, &mut rng).err(),
        Some(ExplorationError::InvariantViolation)
    );
}
