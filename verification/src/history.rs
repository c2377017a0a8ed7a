use crate::fitness::Fitness;
use crate::individual::{Individual, IndividualView};
use vstd::prelude::*;

verus! {

/// One line of the history: an individual's genome and score in one generation.
#[derive(Debug)]
pub struct GenerationResult {
    positions: Vec<u32>,
    fitness: Fitness,
    generation: u32,
}

/// What a `GenerationResult` holds, as plain values.
pub struct GenerationRecord {
    pub alleles: Seq<u32>,
    pub fitness: Fitness,
    pub generation: u32,
}

impl View for GenerationResult {
    type V = GenerationRecord;

    closed spec fn view(&self) -> GenerationRecord {
        GenerationRecord {
            alleles: self.positions@,
            fitness: self.fitness,
            generation: self.generation,
        }
    }
}

impl GenerationResult {
    pub fn positions(&self) -> (positions: &Vec<u32>)
        ensures
            positions@ == self@.alleles,
    {
        &self.positions
    }

    pub fn fitness(&self) -> (fitness: Fitness)
        ensures
            fitness == self@.fitness,
    {
        self.fitness
    }

    pub fn generation(&self) -> (generation: u32)
        ensures
            generation == self@.generation,
    {
        self.generation
    }
}

/// The lines of a history.
pub open spec fn records(history: Seq<GenerationResult>) -> Seq<GenerationRecord> {
    Seq::new(history.len(), |i: int| history[i]@)
}

/// The line that an individual leaves in generation `generation`.
pub open spec fn record_of(individual: IndividualView, generation: u32) -> GenerationRecord {
    GenerationRecord { alleles: individual.alleles, fitness: individual.score(), generation }
}

/// The lines that a population leaves in generation `generation`, in its order.
pub open spec fn records_of(population: Seq<Individual>, generation: u32) -> Seq<GenerationRecord> {
    Seq::new(population.len(), |i: int| record_of(population[i]@, generation))
}

/// Adds one line for every individual to the history. Earlier lines stay as they
/// are.
pub fn record_generation(
    history: &mut Vec<GenerationResult>,
    population: &Vec<Individual>,
    generation: u32,
)
    ensures
        records(final(history)@) == records(old(history)@) + records_of(population@, generation),
{
    let ghost before = records(history@);
    let mut i: usize = 0;
    while i < population.len()
        invariant
            i <= population.len(),
            records(history@) == before + records_of(population@, generation).take(i as int),
        decreases population.len() - i,
    {
        let individual = &population[i];
        let positions = individual.positions().clone();
        assert(positions@ =~= individual@.alleles);
        let line = GenerationResult { positions, fitness: individual.score(), generation };
        assert(line@ == record_of(population@[i as int]@, generation));
        let ghost prior = history@;
        history.push(line);
        i += 1;
        proof {
            assert(records(history@) =~= records(prior).push(line@));
            assert(records_of(population@, generation).take(i as int) =~= records_of(
                population@,
                generation,
            ).take(i as int - 1).push(line@));
        }
    }
    assert(records_of(population@, generation).take(population@.len() as int) =~= records_of(
        population@,
        generation,
    ));
}

} // verus!
