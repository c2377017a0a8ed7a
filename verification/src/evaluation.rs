use crate::error::ExplorationError;
use crate::fitness::Fitness;
use crate::individual::{Individual, IndividualView};
use crate::network::NodeStatus;
use crate::population::{genomes_have, well_formed};
use vstd::prelude::*;

verus! {

/// How many nodes ended a simulation in each state.
#[derive(Clone, Copy, Debug, PartialEq, Eq, Structural)]
pub struct StatusCounts {
    pub susceptible: usize,
    pub infected: usize,
    pub resistant: usize,
}

/// What the simulation handed back for one individual.
#[derive(Debug)]
pub enum SimulationOutcome {
    /// The state of every node after the last step, in the order of the node ids.
    Completed(Vec<NodeStatus>),
    /// The simulation failed or did not end in time.
    Failed,
}

/// The number of nodes in the state `status`.
pub open spec fn count_of(statuses: Seq<NodeStatus>, status: NodeStatus) -> nat
    decreases statuses.len(),
{
    if statuses.len() == 0 {
        0
    } else {
        count_of(statuses.drop_last(), status) + if statuses.last() == status {
            1nat
        } else {
            0nat
        }
    }
}

/// The outcome can be scored for a network of `node_count` nodes: the simulation
/// completed and told of every node, and there is at least one node.
pub open spec fn scorable(outcome: SimulationOutcome, node_count: nat) -> bool {
    outcome matches SimulationOutcome::Completed(statuses) && statuses@.len() == node_count
        && node_count > 0
}

/// The score that an outcome earns on a network of `node_count` nodes:
/// `1 - resistant / node_count` where it can be scored, the least score otherwise.
pub open spec fn score_of(outcome: SimulationOutcome, node_count: nat) -> Fitness {
    match outcome {
        SimulationOutcome::Completed(statuses) => if scorable(outcome, node_count) {
            Fitness::fraction(
                (node_count - count_of(statuses@, NodeStatus::Resistant)) as nat,
                node_count,
            )
        } else {
            Fitness::least()
        },
        SimulationOutcome::Failed => Fitness::least(),
    }
}

/// The individual once the outcome of its simulation is recorded.
pub open spec fn evaluated(before: IndividualView, outcome: SimulationOutcome) -> IndividualView {
    IndividualView { fitness: Some(score_of(outcome, before.alleles.len())), ..before }
}

/// The three counts add up to the number of states, and none exceeds it.
pub proof fn lemma_counts_add_up(statuses: Seq<NodeStatus>)
    ensures
        count_of(statuses, NodeStatus::Susceptible) + count_of(statuses, NodeStatus::Infected)
            + count_of(statuses, NodeStatus::Resistant) == statuses.len(),
    decreases statuses.len(),
{
    if statuses.len() > 0 {
        lemma_counts_add_up(statuses.drop_last());
    }
}

/// The fitness `1 - resistant / node_count` lies between 0 and 1 wherever the
/// three counts add up to `node_count`.
pub proof fn lemma_fitness_in_unit_interval(counts: StatusCounts, node_count: nat, f: Fitness)
    requires
        counts.susceptible + counts.infected + counts.resistant == node_count,
        node_count > 0,
        f.num() == node_count - counts.resistant,
        f.den() == node_count,
    ensures
        f.wf(),
        0 <= f.num() <= f.den(),
{
}

/// Counts the nodes in each state.
pub fn tally(statuses: &Vec<NodeStatus>) -> (counts: StatusCounts)
    ensures
        counts.susceptible == count_of(statuses@, NodeStatus::Susceptible),
        counts.infected == count_of(statuses@, NodeStatus::Infected),
        counts.resistant == count_of(statuses@, NodeStatus::Resistant),
        counts.susceptible + counts.infected + counts.resistant == statuses@.len(),
{
    let mut susceptible: usize = 0;
    let mut infected: usize = 0;
    let mut resistant: usize = 0;
    let mut i: usize = 0;
    while i < statuses.len()
        invariant
            i <= statuses.len(),
            susceptible == count_of(statuses@.take(i as int), NodeStatus::Susceptible),
            infected == count_of(statuses@.take(i as int), NodeStatus::Infected),
            resistant == count_of(statuses@.take(i as int), NodeStatus::Resistant),
            susceptible + infected + resistant == i,
        decreases statuses.len() - i,
    {
        proof {
            assert(statuses@.take(i as int + 1).drop_last() =~= statuses@.take(i as int));
        }
        match statuses[i] {
            NodeStatus::Susceptible => {
                susceptible += 1;
            },
            NodeStatus::Infected => {
                infected += 1;
            },
            NodeStatus::Resistant => {
                resistant += 1;
            },
        }
        i += 1;
    }
    proof {
        assert(statuses@.take(statuses@.len() as int) =~= statuses@);
    }
    StatusCounts { susceptible, infected, resistant }
}

/// The fitness of a tally over `node_count` nodes: `1 - resistant / node_count`.
/// There is none where the counts do not add up to `node_count` or no node exists.
pub fn fitness_of(counts: &StatusCounts, node_count: u32) -> (r: Option<Fitness>)
    ensures
        r is Some <==> node_count > 0 && counts.susceptible + counts.infected + counts.resistant
            == node_count,
        r matches Some(f) ==> f.wf() && f.num() == node_count - counts.resistant && f.den()
            == node_count && f == Fitness::fraction(
            (node_count - counts.resistant) as nat,
            node_count as nat,
        ),
{
    if node_count == 0 {
        return None;
    }
    let total: u128 = counts.susceptible as u128 + counts.infected as u128
        + counts.resistant as u128;
    if total != node_count as u128 {
        return None;
    }
    let resistant: u32 = counts.resistant as u32;
    Fitness::new(node_count - resistant, node_count)
}

/// Scores an individual by the outcome of its simulation and records the score.
/// An outcome that cannot be scored gives the individual the least score and
/// `EvaluationFailure`. The genome and the network are never touched.
pub fn fitness(individual: &mut Individual, outcome: &SimulationOutcome) -> (r: Result<
    Fitness,
    ExplorationError,
>)
    requires
        old(individual).wf(),
    ensures
        final(individual).wf(),
        r is Ok <==> scorable(*outcome, old(individual)@.alleles.len()),
        r matches Ok(f) ==> {
            &&& outcome matches SimulationOutcome::Completed(statuses)
            &&& f.wf()
            &&& f.den() == statuses@.len()
            &&& f.num() == statuses@.len() - count_of(statuses@, NodeStatus::Resistant)
            &&& final(individual)@ == (IndividualView { fitness: Some(f), ..old(individual)@ })
        },
        r matches Err(e) ==> {
            &&& e == ExplorationError::EvaluationFailure
            &&& final(individual)@ == (IndividualView {
                fitness: Some(Fitness::least()),
                ..old(individual)@
            })
        },
        final(individual)@ == evaluated(old(individual)@, *outcome),
{
    let node_count: usize = individual.positions().len();
    let scored: Option<Fitness> = match outcome {
        SimulationOutcome::Completed(statuses) => {
            if statuses.len() == node_count && node_count <= u32::MAX as usize {
                let counts = tally(statuses);
                fitness_of(&counts, node_count as u32)
            } else {
                None
            }
        },
        SimulationOutcome::Failed => None,
    };
    match scored {
        Some(f) => {
            individual.record_fitness(f);
            Ok(f)
        },
        None => {
            let least = Fitness::zero();
            individual.record_fitness(least);
            Err(ExplorationError::EvaluationFailure)
        },
    }
}

/// How many of the first `upto` individuals got an outcome that cannot be scored.
pub open spec fn failures_among(
    population: Seq<Individual>,
    outcomes: Seq<SimulationOutcome>,
    upto: int,
) -> nat
    decreases upto,
{
    if upto <= 0 {
        0
    } else {
        failures_among(population, outcomes, upto - 1) + if scorable(
            outcomes[upto - 1],
            population[upto - 1]@.alleles.len(),
        ) {
            0nat
        } else {
            1nat
        }
    }
}

/// Scores every individual by its own outcome, the `i`-th by `outcomes[i]`, and
/// returns how many could not be scored. A failure concerns its individual alone:
/// the others are scored all the same.
pub fn evaluate_all(
    population: &mut Vec<Individual>,
    outcomes: &Vec<SimulationOutcome>,
) -> (failures: usize)
    requires
        well_formed(old(population)@),
        outcomes@.len() == old(population)@.len(),
    ensures
        final(population)@.len() == old(population)@.len(),
        well_formed(final(population)@),
        forall|i: int|
            0 <= i < old(population)@.len() ==> (#[trigger] final(population)@[i])@ == evaluated(
                old(population)@[i]@,
                outcomes@[i],
            ),
        forall|n: nat| genomes_have(old(population)@, n) ==> genomes_have(final(population)@, n),
        failures == failures_among(old(population)@, outcomes@, outcomes@.len() as int),
{
    let ghost initial = population@;
    let mut failures: usize = 0;
    let mut i: usize = 0;
    while i < population.len()
        invariant
            i <= population@.len(),
            population@.len() == initial.len(),
            outcomes@.len() == initial.len(),
            initial == old(population)@,
            well_formed(population@),
            forall|k: int| i <= k < initial.len() ==> #[trigger] population@[k] == initial[k],
            forall|k: int|
                0 <= k < i ==> (#[trigger] population@[k])@ == evaluated(initial[k]@, outcomes@[k]),
            failures == failures_among(initial, outcomes@, i as int),
            failures <= i,
        decreases population@.len() - i,
    {
        let r = fitness(&mut population[i], &outcomes[i]);
        if r.is_err() {
            failures += 1;
        }
        i += 1;
    }
    proof {
        assert forall|n: nat| genomes_have(initial, n) implies genomes_have(population@, n) by {
            assert forall|k: int| 0 <= k < population@.len() implies (
            #[trigger] population@[k])@.alleles.len() == n by {
                assert(initial[k]@.alleles.len() == n);
            }
        }
    }
    failures
}

} // verus!
