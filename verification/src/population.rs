use crate::fitness::Fitness;
use crate::individual::Individual;
use vstd::prelude::*;

verus! {

/// Every individual of the population is well formed.
pub open spec fn well_formed(population: Seq<Individual>) -> bool {
    forall|i: int| 0 <= i < population.len() ==> (#[trigger] population[i]).wf()
}

/// Every genome of the population has `node_count` alleles.
pub open spec fn genomes_have(population: Seq<Individual>, node_count: nat) -> bool {
    forall|i: int| 0 <= i < population.len() ==> (#[trigger] population[i])@.alleles.len()
        == node_count
}

/// All genomes of the population have one length.
pub open spec fn uniform(population: Seq<Individual>) -> bool {
    forall|i: int, j: int|
        0 <= i < population.len() && 0 <= j < population.len() ==> (
        #[trigger] population[i])@.alleles.len() == (#[trigger] population[j])@.alleles.len()
}

/// Tells whether every individual is well formed.
pub fn all_valid(population: &Vec<Individual>) -> (ok: bool)
    ensures
        ok == well_formed(population@),
{
    let mut i: usize = 0;
    while i < population.len()
        invariant
            i <= population.len(),
            forall|k: int| 0 <= k < i ==> (#[trigger] population@[k]).wf(),
        decreases population.len() - i,
    {
        if !population[i].is_valid() {
            return false;
        }
        i += 1;
    }
    true
}

/// Tells whether every genome has `node_count` alleles.
pub fn all_genomes_have(population: &Vec<Individual>, node_count: usize) -> (ok: bool)
    ensures
        ok == genomes_have(population@, node_count as nat),
{
    let mut i: usize = 0;
    while i < population.len()
        invariant
            i <= population.len(),
            forall|k: int|
                0 <= k < i ==> (#[trigger] population@[k])@.alleles.len() == node_count,
        decreases population.len() - i,
    {
        if population[i].positions().len() != node_count {
            return false;
        }
        i += 1;
    }
    true
}

/// Tells whether all genomes have one length.
pub fn is_uniform(population: &Vec<Individual>) -> (ok: bool)
    ensures
        ok == uniform(population@),
{
    if population.len() == 0 {
        return true;
    }
    let length: usize = population[0].positions().len();
    let ok = all_genomes_have(population, length);
    proof {
        if !ok {
            let k = choose|k: int|
                0 <= k < population@.len() && (#[trigger] population@[k])@.alleles.len() != length;
            assert(population@[k]@.alleles.len() != population@[0]@.alleles.len());
        }
    }
    ok
}

/// `kept` names, in rising order, the places of `initial` whose individuals make up
/// `survivors`, in that order.
pub open spec fn is_selection_of(
    survivors: Seq<Individual>,
    kept: Seq<int>,
    initial: Seq<Individual>,
) -> bool {
    &&& kept.len() == survivors.len()
    &&& forall|i: int| 0 <= i < kept.len() ==> 0 <= #[trigger] kept[i] < initial.len()
    &&& forall|i: int, j: int| 0 <= i < j < kept.len() ==> kept[i] < kept[j]
    &&& forall|i: int| 0 <= i < kept.len() ==> #[trigger] survivors[i] == initial[kept[i]]
}

/// Some individual of the population scores no less than `score`.
pub open spec fn reaches(population: Seq<Individual>, score: Fitness) -> bool {
    exists|i: int| 0 <= i < population.len() && !(#[trigger] population[i])@.score().lt(score)
}

/// For every individual of `initial`, `survivors` holds one that scores no less.
pub open spec fn no_score_lost(survivors: Seq<Individual>, initial: Seq<Individual>) -> bool {
    forall|j: int|
        0 <= j < initial.len() ==> reaches(survivors, (#[trigger] initial[j])@.score())
}

/// Genomes that all have `n` alleles all have one length.
pub proof fn lemma_genomes_uniform(population: Seq<Individual>, n: nat)
    requires
        genomes_have(population, n),
    ensures
        uniform(population),
{
}

/// Individuals chosen from a population are as well formed as it was, and their
/// genomes have the lengths that its genomes had.
pub proof fn lemma_selection_keeps_genomes(
    survivors: Seq<Individual>,
    kept: Seq<int>,
    initial: Seq<Individual>,
)
    requires
        is_selection_of(survivors, kept, initial),
    ensures
        well_formed(initial) ==> well_formed(survivors),
        uniform(initial) ==> uniform(survivors),
        forall|n: nat| genomes_have(initial, n) ==> genomes_have(survivors, n),
{
    if well_formed(initial) {
        assert forall|i: int| 0 <= i < survivors.len() implies (#[trigger] survivors[i]).wf() by {
            assert(survivors[i] == initial[kept[i]]);
        }
    }
    if uniform(initial) {
        assert forall|i: int, j: int|
            0 <= i < survivors.len() && 0 <= j < survivors.len() implies (
        #[trigger] survivors[i])@.alleles.len() == (#[trigger] survivors[j])@.alleles.len() by {
            assert(survivors[i] == initial[kept[i]]);
            assert(survivors[j] == initial[kept[j]]);
        }
    }
    assert forall|n: nat| genomes_have(initial, n) implies genomes_have(survivors, n) by {
        assert forall|i: int| 0 <= i < survivors.len() implies (
        #[trigger] survivors[i])@.alleles.len() == n by {
            assert(survivors[i] == initial[kept[i]]);
        }
    }
}

} // verus!
