use crate::individual::{flipped, Individual, IndividualView};
use crate::population::{genomes_have, well_formed};
use crate::probability::Probability;
use crate::random::draw_below;
use rand::rngs::StdRng;
use vstd::prelude::*;

verus! {

/// The individual with the allele at `index` flipped and nothing else changed.
pub open spec fn mutated_at(before: IndividualView, index: int) -> IndividualView {
    IndividualView {
        alleles: before.alleles.update(index, flipped(before.alleles[index])),
        ..before
    }
}

/// `after` is `before` with exactly the allele at `index` changed.
pub open spec fn changed_only_at(before: Seq<u32>, after: Seq<u32>, index: int) -> bool {
    &&& after.len() == before.len()
    &&& 0 <= index < before.len()
    &&& after[index] != before[index]
    &&& forall|j: int| 0 <= j < before.len() && j != index ==> after[j] == before[j]
}

/// A flip changes the allele it is applied to, and no other.
pub proof fn lemma_flip_changes_one(before: IndividualView, index: int)
    requires
        0 <= index < before.alleles.len(),
    ensures
        changed_only_at(before.alleles, mutated_at(before, index).alleles, index),
        forall|other: int|
            changed_only_at(before.alleles, mutated_at(before, index).alleles, other) ==> other
                == index,
{
}

/// Mutates in place: with the chance `rate` one allele, drawn evenly among all, is
/// flipped; otherwise nothing changes. Returns the place of the flip, if any. A
/// genome without alleles is never changed.
pub fn mutation(individual: &mut Individual, rate: &Probability, rng: &mut StdRng) -> (flip: Option<
    usize,
>)
    requires
        old(individual).wf(),
        rate.wf(),
    ensures
        final(individual).wf(),
        flip matches Some(index) ==> index < old(individual)@.alleles.len() && final(individual)@
            == mutated_at(old(individual)@, index as int),
        flip is None ==> final(individual)@ == old(individual)@,
        rate.is_certain() && old(individual)@.alleles.len() > 0 ==> flip is Some,
        rate.is_impossible() || old(individual)@.alleles.len() == 0 ==> flip is None,
{
    let length: usize = individual.positions().len();
    if length == 0 {
        return None;
    }
    if rate.draw(rng) {
        let index = draw_below(rng, length);
        individual.flip_allele(index);
        Some(index)
    } else {
        None
    }
}

/// The individual is as before, or has exactly one allele flipped.
pub open spec fn mutated_or_same(before: IndividualView, after: IndividualView) -> bool {
    after == before || exists|index: int|
        0 <= index < before.alleles.len() && after == #[trigger] mutated_at(before, index)
}

/// The individual has exactly one allele flipped.
pub open spec fn mutated_once(before: IndividualView, after: IndividualView) -> bool {
    exists|index: int|
        0 <= index < before.alleles.len() && after == #[trigger] mutated_at(before, index)
}

/// `after` is what one mutation of every individual can make of `before` at the
/// chance `rate`: each individual is as it was or has one allele flipped; none has
/// changed at the chance 0, and at the chance 1 every genome that has an allele has
/// one flipped.
pub open spec fn mutated_from(
    before: Seq<Individual>,
    after: Seq<Individual>,
    rate: Probability,
) -> bool {
    &&& after.len() == before.len()
    &&& forall|i: int| 0 <= i < before.len() ==> mutated_or_same(before[i]@, (#[trigger] after[i])@)
    &&& rate.is_impossible() ==> forall|i: int|
        0 <= i < before.len() ==> (#[trigger] after[i])@ == before[i]@
    &&& rate.is_certain() ==> forall|i: int|
        0 <= i < before.len() && before[i]@.alleles.len() > 0 ==> mutated_once(
            before[i]@,
            (#[trigger] after[i])@,
        )
}

/// Mutation keeps the shape of the population: what is mutated from well-formed
/// individuals whose genomes have `node_count` alleles is again such.
pub proof fn lemma_mutated_genomes(
    before: Seq<Individual>,
    after: Seq<Individual>,
    rate: Probability,
    node_count: nat,
)
    requires
        well_formed(before),
        genomes_have(before, node_count),
        mutated_from(before, after, rate),
    ensures
        well_formed(after),
        genomes_have(after, node_count),
{
    assert forall|i: int| 0 <= i < after.len() implies (#[trigger] after[i]).wf()
        && after[i]@.alleles.len() == node_count by {
        assert(before[i].wf());
        assert(mutated_or_same(before[i]@, after[i]@));
    }
}

/// Mutates every individual of the population once, each with its own draws.
pub fn mutate_all(population: &mut Vec<Individual>, rate: &Probability, rng: &mut StdRng)
    requires
        well_formed(old(population)@),
        rate.wf(),
    ensures
        final(population)@.len() == old(population)@.len(),
        well_formed(final(population)@),
        forall|i: int|
            0 <= i < old(population)@.len() ==> (#[trigger] final(population)@[i])@.alleles.len()
                == old(population)@[i]@.alleles.len(),
        mutated_from(old(population)@, final(population)@, *rate),
{
    let ghost initial = population@;
    let mut i: usize = 0;
    while i < population.len()
        invariant
            i <= population@.len(),
            population@.len() == initial.len(),
            initial == old(population)@,
            rate.wf(),
            well_formed(population@),
            forall|k: int| i <= k < initial.len() ==> #[trigger] population@[k] == initial[k],
            forall|k: int|
                0 <= k < i ==> (#[trigger] population@[k])@.alleles.len()
                    == initial[k]@.alleles.len(),
            forall|k: int|
                0 <= k < i ==> mutated_or_same(initial[k]@, (#[trigger] population@[k])@),
            rate.is_impossible() ==> forall|k: int|
                0 <= k < i ==> (#[trigger] population@[k])@ == initial[k]@,
            rate.is_certain() ==> forall|k: int|
                0 <= k < i && initial[k]@.alleles.len() > 0 ==> mutated_once(
                    initial[k]@,
                    (#[trigger] population@[k])@,
                ),
        decreases population@.len() - i,
    {
        let ghost before = population@;
        let flip = mutation(&mut population[i], rate, rng);
        proof {
            assert(population@[i as int]@ == if flip is Some {
                mutated_at(before[i as int]@, flip->0 as int)
            } else {
                before[i as int]@
            });
        }
        i += 1;
    }
}

} // verus!
