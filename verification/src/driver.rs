use crate::breeding::{bred_from, breed};
use crate::config::RunConfig;
use crate::crossover::nth_id;
use crate::error::ExplorationError;
use crate::evaluation::{evaluate_all, evaluated, score_of, SimulationOutcome};
use crate::fitness::Fitness;
use crate::history::{record_generation, records, records_of, GenerationRecord, GenerationResult};
use crate::individual::Individual;
use crate::population::{
    all_genomes_have, genomes_have, lemma_genomes_uniform, reaches, well_formed,
};
use crate::random::has_positive;
use crate::selection::{rounds_of, weights_of};
use rand::rngs::StdRng;
use vstd::prelude::*;

verus! {

/// Why a run stopped.
#[derive(Clone, Copy, Debug, PartialEq, Eq, Structural)]
pub enum StopReason {
    /// Some individual reached the desired fitness.
    Converged,
    /// The last generation was evaluated and none had reached it.
    Exhausted,
    /// The caller ended the run between two generations.
    Cancelled,
    /// An error ended the run.
    Aborted(ExplorationError),
}

/// Where a run stands.
#[derive(Clone, Copy, Debug, PartialEq, Eq, Structural)]
pub enum Phase {
    /// The population waits for the outcomes of its simulations.
    Evaluating,
    /// The run is over.
    Done(StopReason),
}

/// What the caller is to do next.
#[derive(Clone, Copy, Debug, PartialEq, Eq, Structural)]
pub enum Action {
    /// Simulate every individual of the population and hand the outcomes back.
    Evaluate,
    /// Nothing more: the run is over.
    Stop(StopReason),
}

/// What an evaluated generation means for the run.
#[derive(Clone, Copy, Debug, PartialEq, Eq, Structural)]
pub enum Verdict {
    Converged,
    Exhausted,
    Continue,
}

/// The verdict on generation `generation`, counted from 0: converged where the
/// desired fitness was reached, whatever the count; else exhausted where
/// this was the last of `max_generations`; else the run goes on.
pub open spec fn verdict_of(reached: bool, generation: u32, max_generations: u32) -> Verdict {
    if reached {
        Verdict::Converged
    } else if generation + 1 >= max_generations {
        Verdict::Exhausted
    } else {
        Verdict::Continue
    }
}

/// Gives the verdict on an evaluated generation.
pub fn decide(reached: bool, generation: u32, max_generations: u32) -> (verdict: Verdict)
    ensures
        verdict == verdict_of(reached, generation, max_generations),
{
    if reached {
        Verdict::Converged
    } else if max_generations == 0 || generation >= max_generations - 1 {
        Verdict::Exhausted
    } else {
        Verdict::Continue
    }
}

/// Tells whether some individual scores no less than `desired`.
pub fn any_reaches(population: &Vec<Individual>, desired: &Fitness) -> (reached: bool)
    ensures
        reached == reaches(population@, *desired),
{
    let mut i: usize = 0;
    while i < population.len()
        invariant
            i <= population.len(),
            forall|k: int| 0 <= k < i ==> (#[trigger] population@[k])@.score().lt(*desired),
        decreases population.len() - i,
    {
        let score = population[i].score();
        if score.at_least(desired) {
            return true;
        }
        i += 1;
    }
    false
}

/// The generation loop as a state machine. The caller simulates, the driver
/// decides: `advance` takes the outcomes of one generation's simulations and says
/// whether another generation is to be simulated or the run is over.
#[derive(Debug)]
pub struct ExplorationDriver {
    config: RunConfig,
    population: Vec<Individual>,
    generation: u32,
    next_id: u64,
    history: Vec<GenerationResult>,
    phase: Phase,
}

/// What an `ExplorationDriver` holds, as plain values.
pub struct DriverView {
    pub config: RunConfig,
    pub population: Seq<Individual>,
    pub generation: u32,
    pub next_id: u64,
    pub history: Seq<GenerationRecord>,
    pub phase: Phase,
}

impl DriverView {
    /// At every generation boundary the population has its target size, is not
    /// empty, and every genome has one allele per node.
    pub open spec fn wf(self) -> bool {
        &&& self.config.wf()
        &&& self.population.len() == self.config.population_size
        &&& self.population.len() > 0
        &&& well_formed(self.population)
        &&& genomes_have(self.population, self.config.node_count as nat)
    }
}

impl View for ExplorationDriver {
    type V = DriverView;

    closed spec fn view(&self) -> DriverView {
        DriverView {
            config: self.config,
            population: self.population@,
            generation: self.generation,
            next_id: self.next_id,
            history: records(self.history@),
            phase: self.phase,
        }
    }
}

/// The score that each individual earns by its outcome.
pub open spec fn scores_after(
    population: Seq<Individual>,
    outcomes: Seq<SimulationOutcome>,
) -> Seq<Fitness> {
    Seq::new(population.len(), |i: int| score_of(outcomes[i], population[i]@.alleles.len()))
}

/// Some individual earns no less than `desired`.
pub open spec fn reached_after(
    population: Seq<Individual>,
    outcomes: Seq<SimulationOutcome>,
    desired: Fitness,
) -> bool {
    exists|i: int|
        0 <= i < population.len() && !(#[trigger] scores_after(population, outcomes)[i]).lt(desired)
}

/// The selection weights that the earned scores give.
pub open spec fn weights_after(
    population: Seq<Individual>,
    outcomes: Seq<SimulationOutcome>,
) -> Seq<u128> {
    Seq::new(population.len(), |i: int| scores_after(population, outcomes)[i].weight() as u128)
}

/// The lines that the generation leaves in the history.
pub open spec fn records_after(
    population: Seq<Individual>,
    outcomes: Seq<SimulationOutcome>,
    generation: u32,
) -> Seq<GenerationRecord> {
    Seq::new(
        population.len(),
        |i: int|
            GenerationRecord {
                alleles: population[i]@.alleles,
                fitness: scores_after(population, outcomes)[i],
                generation,
            },
    )
}

/// `after` is `before` with every individual scored by its outcome.
pub open spec fn evaluation_of(
    after: Seq<Individual>,
    before: Seq<Individual>,
    outcomes: Seq<SimulationOutcome>,
) -> bool {
    &&& after.len() == before.len()
    &&& forall|i: int|
        0 <= i < before.len() ==> (#[trigger] after[i])@ == evaluated(before[i]@, outcomes[i])
}

/// The run stopped for `reason` right after the evaluation.
pub open spec fn stopped_after_evaluation(
    before: DriverView,
    outcomes: Seq<SimulationOutcome>,
    after: DriverView,
    reason: StopReason,
) -> bool {
    &&& after.phase == Phase::Done(reason)
    &&& after.generation == before.generation
    &&& after.next_id == before.next_id
    &&& evaluation_of(after.population, before.population, outcomes)
}

/// What one step does to a driver that waits for outcomes.
pub open spec fn stepped(
    before: DriverView,
    outcomes: Seq<SimulationOutcome>,
    after: DriverView,
    action: Action,
) -> bool {
    if outcomes.len() != before.population.len() {
        let reason = StopReason::Aborted(ExplorationError::InvariantViolation);
        after == (DriverView { phase: Phase::Done(reason), ..before }) && action == Action::Stop(
            reason,
        )
    } else {
        &&& after.history == before.history + records_after(
            before.population,
            outcomes,
            before.generation,
        )
        &&& match verdict_of(
            reached_after(before.population, outcomes, before.config.desired_fitness),
            before.generation,
            before.config.max_generations,
        ) {
            Verdict::Converged => {
                &&& action == Action::Stop(StopReason::Converged)
                &&& stopped_after_evaluation(before, outcomes, after, StopReason::Converged)
            },
            Verdict::Exhausted => {
                &&& action == Action::Stop(StopReason::Exhausted)
                &&& stopped_after_evaluation(before, outcomes, after, StopReason::Exhausted)
            },
            Verdict::Continue => if before.population.len() >= 2 && !has_positive(
                weights_after(before.population, outcomes),
            ) {
                let reason = StopReason::Aborted(ExplorationError::DegenerateWeights);
                &&& action == Action::Stop(reason)
                &&& stopped_after_evaluation(before, outcomes, after, reason)
            } else {
                &&& action == Action::Evaluate
                &&& after.phase == Phase::Evaluating
                &&& after.generation == before.generation + 1
                &&& after.next_id == nth_id(before.next_id, rounds_of(before.population.len()))
                &&& exists|scored: Seq<Individual>|
                    {
                        &&& #[trigger] evaluation_of(scored, before.population, outcomes)
                        &&& bred_from(
                            scored,
                            after.population,
                            before.population.len(),
                            before.next_id,
                            before.config.mutation_rate,
                        )
                    }
            },
        }
    }
}

/// An evaluated population has the scores, weights and lines that its outcomes
/// give.
pub proof fn lemma_evaluation(
    after: Seq<Individual>,
    before: Seq<Individual>,
    outcomes: Seq<SimulationOutcome>,
    desired: Fitness,
    generation: u32,
)
    requires
        evaluation_of(after, before, outcomes),
    ensures
        reaches(after, desired) == reached_after(before, outcomes, desired),
        weights_of(after) == weights_after(before, outcomes),
        records_of(after, generation) == records_after(before, outcomes, generation),
{
    let scores = scores_after(before, outcomes);
    assert forall|i: int| 0 <= i < before.len() implies (#[trigger] after[i])@.score()
        == scores[i] && after[i]@.alleles == before[i]@.alleles by {}
    if reaches(after, desired) {
        let i = choose|i: int| 0 <= i < after.len() && !(#[trigger] after[i])@.score().lt(desired);
        assert(!scores[i].lt(desired));
    }
    if reached_after(before, outcomes, desired) {
        let i = choose|i: int| 0 <= i < before.len() && !(#[trigger] scores[i]).lt(desired);
        assert(!after[i]@.score().lt(desired));
    }
    assert(weights_of(after) =~= weights_after(before, outcomes));
    assert(records_of(after, generation) =~= records_after(before, outcomes, generation));
}

impl ExplorationDriver {
    pub open spec fn wf(&self) -> bool {
        self@.wf()
    }

    /// Takes up a run on its first generation, which waits to be evaluated. The
    /// population has to have the configured size and genome length and may not be
    /// empty. Newcomers will get the ids from the population's size on.
    pub fn start(config: RunConfig, population: Vec<Individual>) -> (r: Result<
        ExplorationDriver,
        ExplorationError,
    >)
        requires
            config.wf(),
            well_formed(population@),
        ensures
            r is Ok <==> {
                &&& population@.len() == config.population_size
                &&& population@.len() > 0
                &&& genomes_have(population@, config.node_count as nat)
            },
            r matches Ok(driver) ==> driver.wf() && driver@ == (DriverView {
                config,
                population: population@,
                generation: 0,
                next_id: population@.len() as u64,
                history: Seq::empty(),
                phase: Phase::Evaluating,
            }),
            r matches Err(e) ==> e == ExplorationError::InvariantViolation,
    {
        if population.len() != config.population_size || population.len() == 0 {
            return Err(ExplorationError::InvariantViolation);
        }
        if !all_genomes_have(&population, config.node_count as usize) {
            return Err(ExplorationError::InvariantViolation);
        }
        let next_id: u64 = population.len() as u64;
        let driver = ExplorationDriver {
            config,
            population,
            generation: 0,
            next_id,
            history: Vec::new(),
            phase: Phase::Evaluating,
        };
        assert(driver@.history =~= Seq::empty());
        Ok(driver)
    }

    pub fn config(&self) -> (config: &RunConfig)
        ensures
            *config == self@.config,
    {
        &self.config
    }

    /// The population as it stands: what is to be simulated next, or what the run
    /// ended with.
    pub fn population(&self) -> (population: &Vec<Individual>)
        ensures
            population@ == self@.population,
    {
        &self.population
    }

    /// The number of the generation that the population belongs to, from 0.
    pub fn generation(&self) -> (generation: u32)
        ensures
            generation == self@.generation,
    {
        self.generation
    }

    pub fn phase(&self) -> (phase: Phase)
        ensures
            phase == self@.phase,
    {
        self.phase
    }

    /// The lines recorded so far, oldest first.
    pub fn history(&self) -> (history: &Vec<GenerationResult>)
        ensures
            records(history@) == self@.history,
    {
        &self.history
    }

    /// Ends a run that waits for outcomes; a run that is over stays as it is.
    pub fn cancel(&mut self)
        requires
            old(self).wf(),
        ensures
            final(self).wf(),
            old(self)@.phase is Evaluating ==> final(self)@ == (DriverView {
                phase: Phase::Done(StopReason::Cancelled),
                ..old(self)@
            }),
            old(self)@.phase is Done ==> final(self)@ == old(self)@,
    {
        match self.phase {
            Phase::Evaluating => {
                self.phase = Phase::Done(StopReason::Cancelled);
            },
            Phase::Done(_) => {},
        }
    }

    /// Takes the outcomes of the simulations of the population, the `i`-th for the
    /// `i`-th individual, and moves the run on: every individual is scored, the
    /// generation is recorded, and the run either stops (converged first, exhausted
    /// second) or breeds the next generation and asks for its evaluation. A run
    /// that is over stays as it is.
    pub fn advance(&mut self, outcomes: &Vec<SimulationOutcome>, rng: &mut StdRng) -> (action:
        Action)
        requires
            old(self).wf(),
        ensures
            final(self).wf(),
            final(self)@.config == old(self)@.config,
            old(self)@.phase matches Phase::Done(reason) ==> final(self)@ == old(self)@ && action
                == Action::Stop(reason),
            old(self)@.phase is Evaluating ==> stepped(old(self)@, outcomes@, final(self)@, action),
    {
        match self.phase {
            Phase::Done(reason) => {
                return Action::Stop(reason);
            },
            Phase::Evaluating => {},
        }
        if outcomes.len() != self.population.len() {
            let reason = StopReason::Aborted(ExplorationError::InvariantViolation);
            self.phase = Phase::Done(reason);
            return Action::Stop(reason);
        }
        let ghost before = self.population@;
        evaluate_all(&mut self.population, outcomes);
        record_generation(&mut self.history, &self.population, self.generation);
        let reached = any_reaches(&self.population, &self.config.desired_fitness);
        proof {
            assert(evaluation_of(self.population@, before, outcomes@));
            lemma_evaluation(
                self.population@,
                before,
                outcomes@,
                self.config.desired_fitness,
                self.generation,
            );
        }
        match decide(reached, self.generation, self.config.max_generations) {
            Verdict::Converged => {
                self.phase = Phase::Done(StopReason::Converged);
                Action::Stop(StopReason::Converged)
            },
            Verdict::Exhausted => {
                self.phase = Phase::Done(StopReason::Exhausted);
                Action::Stop(StopReason::Exhausted)
            },
            Verdict::Continue => {
                proof {
                    lemma_genomes_uniform(self.population@, self.config.node_count as nat);
                }
                match breed(
                    &mut self.population,
                    self.config.population_size,
                    &self.config.mutation_rate,
                    self.next_id,
                    rng,
                ) {
                    Ok(next) => {
                        self.next_id = next;
                        self.generation = self.generation + 1;
                        Action::Evaluate
                    },
                    Err(e) => {
                        let reason = StopReason::Aborted(e);
                        self.phase = Phase::Done(reason);
                        Action::Stop(reason)
                    },
                }
            },
        }
    }
}

} // verus!
