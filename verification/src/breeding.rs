use crate::crossover::{crossover, nth_id, refilled_from};
use crate::error::ExplorationError;
use crate::individual::Individual;
use crate::crossover::lemma_refilled_genomes;
use crate::mutation::{lemma_mutated_genomes, mutate_all, mutated_from};
use crate::population::{
    genomes_have, is_selection_of, lemma_genomes_uniform, lemma_selection_keeps_genomes, uniform,
    well_formed,
};
use crate::probability::Probability;
use crate::random::has_positive;
use crate::selection::{
    after_rounds, draws_are_possible, lemma_rounds, rounds_of, selected_from, selection, weights_of,
};
use rand::rngs::StdRng;
use vstd::prelude::*;

verus! {

/// `after` is what one breeding can make of `before`: some selection of it,
/// refilled to `target_size` by some crossover under the ids from `first_id` on,
/// every individual then mutated once at the chance `rate`.
pub open spec fn bred_from(
    before: Seq<Individual>,
    after: Seq<Individual>,
    target_size: nat,
    first_id: u64,
    rate: Probability,
) -> bool {
    exists|selected: Seq<Individual>, refilled: Seq<Individual>|
        {
            &&& selected_from(before, selected)
            &&& #[trigger] refilled_from(selected, refilled, target_size, first_id)
            &&& mutated_from(refilled, after, rate)
        }
}

/// Breeding keeps the shape of the population: what is bred from a well-formed
/// population of `target_size` individuals whose genomes have `node_count` alleles
/// is again such a population.
pub proof fn lemma_bred_population(
    before: Seq<Individual>,
    after: Seq<Individual>,
    target_size: nat,
    first_id: u64,
    rate: Probability,
    node_count: nat,
)
    requires
        well_formed(before),
        genomes_have(before, node_count),
        bred_from(before, after, target_size, first_id, rate),
    ensures
        after.len() == target_size,
        well_formed(after),
        genomes_have(after, node_count),
{
    let (selected, refilled) = choose|selected: Seq<Individual>, refilled: Seq<Individual>|
        {
            &&& selected_from(before, selected)
            &&& #[trigger] refilled_from(selected, refilled, target_size, first_id)
            &&& mutated_from(refilled, after, rate)
        };
    let draws = choose|draws: Seq<int>|
        {
            &&& draws.len() == rounds_of(before.len())
            &&& draws_are_possible(before, draws)
            &&& selected == #[trigger] after_rounds(before, draws)
        };
    lemma_rounds(before, draws);
    let kept = choose|kept: Seq<int>| is_selection_of(selected, kept, before);
    lemma_selection_keeps_genomes(selected, kept, before);
    lemma_refilled_genomes(selected, refilled, target_size, first_id, node_count);
    lemma_mutated_genomes(refilled, after, rate, node_count);
}

/// One generation's breeding: selection, then crossover back to `target_size`,
/// then one mutation of every individual. Returns the id after the last
/// newcomer's. A population that is not of `target_size`, or an empty one, breaks
/// the rule of the generation boundary; one without any positive weight cannot be
/// selected from. Either is refused and left as it was.
pub fn breed(
    population: &mut Vec<Individual>,
    target_size: usize,
    rate: &Probability,
    first_id: u64,
    rng: &mut StdRng,
) -> (r: Result<u64, ExplorationError>)
    requires
        well_formed(old(population)@),
        uniform(old(population)@),
        rate.wf(),
    ensures
        r == Err::<u64, ExplorationError>(ExplorationError::InvariantViolation) <==> (old(
            population,
        )@.len() != target_size || target_size == 0),
        r == Err::<u64, ExplorationError>(ExplorationError::DegenerateWeights) <==> (old(
            population,
        )@.len() == target_size && target_size >= 2 && !has_positive(
            weights_of(old(population)@),
        )),
        r matches Err(e) ==> {
            &&& final(population)@ == old(population)@
            &&& (e == ExplorationError::InvariantViolation || e
                == ExplorationError::DegenerateWeights)
        },
        r matches Ok(next) ==> {
            &&& bred_from(old(population)@, final(population)@, target_size as nat, first_id, *rate)
            &&& final(population)@.len() == target_size
            &&& well_formed(final(population)@)
            &&& uniform(final(population)@)
            &&& forall|n: nat|
                genomes_have(old(population)@, n) ==> genomes_have(final(population)@, n)
            &&& next == nth_id(first_id, rounds_of(target_size as nat))
        },
{
    if population.len() != target_size || target_size == 0 {
        return Err(ExplorationError::InvariantViolation);
    }
    match selection(population, rng) {
        Ok(()) => {},
        Err(e) => {
            return Err(e);
        },
    }
    let ghost survivors = population@;
    let next = match crossover(population, target_size, first_id, rng) {
        Ok(next) => next,
        Err(e) => {
            return Err(e);
        },
    };
    let ghost refilled = population@;
    mutate_all(population, rate, rng);
    proof {
        assert(refilled_from(survivors, refilled, target_size as nat, first_id));
        let before = old(population)@;
        lemma_bred_population(
            before,
            population@,
            target_size as nat,
            first_id,
            *rate,
            before[0]@.alleles.len(),
        );
        lemma_genomes_uniform(population@, before[0]@.alleles.len());
        assert forall|n: nat| genomes_have(before, n) implies genomes_have(population@, n) by {
            assert(before[0]@.alleles.len() == n);
        }
    }
    Ok(next)
}

} // verus!
