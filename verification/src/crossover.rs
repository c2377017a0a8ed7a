use crate::error::ExplorationError;
use crate::individual::{Individual, IndividualView};
use crate::population::{genomes_have, uniform, well_formed};
use crate::random::draw_below;
use rand::rngs::StdRng;
use vstd::prelude::*;

verus! {

/// How often the first parent is drawn again while it equals the second.
pub const MAX_PARENT_REDRAWS: usize = 16;

/// The place where genomes are cut: the middle of the first parent's genome.
pub open spec fn midpoint(genome: Seq<u32>) -> int {
    genome.len() as int / 2
}

/// The child genome: the first parent's alleles before the cut, then the second
/// parent's alleles from the cut on.
pub open spec fn spliced(first: Seq<u32>, second: Seq<u32>) -> Seq<u32> {
    first.subrange(0, midpoint(first)) + second.subrange(midpoint(first), second.len() as int)
}

/// The child of two parents: the spliced genome on the first parent's network, not
/// yet evaluated.
pub open spec fn child_of(
    id: u64,
    first: IndividualView,
    second: IndividualView,
) -> IndividualView {
    IndividualView {
        id,
        alleles: spliced(first.alleles, second.alleles),
        network: first.network,
        fitness: None,
    }
}

/// The id after `id`; after the last one the ids begin again at 0.
pub open spec fn successor(id: u64) -> u64 {
    if id == u64::MAX {
        0
    } else {
        (id + 1) as u64
    }
}

/// The id that is `steps` after `first`.
pub open spec fn nth_id(first: u64, steps: nat) -> u64
    decreases steps,
{
    if steps == 0 {
        first
    } else {
        successor(nth_id(first, (steps - 1) as nat))
    }
}

/// The first parent, once the draws are over: as drawn where it differs from the
/// second parent or no other place exists, else the place after the second,
/// going round at the end.
pub open spec fn settled(size: nat, first: nat, second: nat) -> nat {
    if first != second || size < 2 {
        first
    } else if second + 1 < size {
        second + 1
    } else {
        0
    }
}

/// The place `at` holds, under the id `id`, a child of two of the first `parents`
/// individuals, which are two different ones where two exist.
pub open spec fn is_child_at(population: Seq<Individual>, at: int, parents: int, id: u64) -> bool {
    exists|one: int, two: int|
        {
            &&& 0 <= one < parents
            &&& 0 <= two < parents
            &&& (parents >= 2 ==> one != two)
            &&& population[at]@ == #[trigger] child_of(id, population[one]@, population[two]@)
        }
}

/// `refilled` is what a crossover can make of `survivors`: the survivors first,
/// unchanged, and behind them children of survivors, up to `target_size`, under the
/// ids from `first_id` on.
pub open spec fn refilled_from(
    survivors: Seq<Individual>,
    refilled: Seq<Individual>,
    target_size: nat,
    first_id: u64,
) -> bool {
    &&& survivors.len() <= target_size
    &&& refilled.len() == target_size
    &&& refilled.subrange(0, survivors.len() as int) == survivors
    &&& forall|at: int|
        survivors.len() <= at < target_size ==> #[trigger] is_child_at(
            refilled,
            at,
            survivors.len() as int,
            nth_id(first_id, (at - survivors.len()) as nat),
        )
}

/// `child` has, place by place, the alleles of `first` before the middle and the
/// alleles of `second` from the middle on; all three are of one length.
pub open spec fn halves_from(child: Seq<u32>, first: Seq<u32>, second: Seq<u32>) -> bool {
    &&& child.len() == first.len()
    &&& child.len() == second.len()
    &&& forall|i: int| 0 <= i < midpoint(first) ==> child[i] == first[i]
    &&& forall|i: int| midpoint(first) <= i < child.len() ==> child[i] == second[i]
}

/// A spliced genome is as long as its parents', agrees with the first parent before
/// the cut and with the second from the cut on.
pub proof fn lemma_spliced(first: Seq<u32>, second: Seq<u32>)
    requires
        first.len() == second.len(),
    ensures
        spliced(first, second).len() == first.len(),
        forall|i: int| 0 <= i < midpoint(first) ==> spliced(first, second)[i] == first[i],
        forall|i: int|
            midpoint(first) <= i < first.len() ==> spliced(first, second)[i] == second[i],
{
}

/// Settles the first parent after the draws.
pub fn settle(size: usize, first: usize, second: usize) -> (parent: usize)
    requires
        first < size,
        second < size,
    ensures
        parent == settled(size as nat, first as nat, second as nat),
        parent < size,
        size >= 2 ==> parent != second,
{
    if first != second || size < 2 {
        first
    } else if second + 1 < size {
        second + 1
    } else {
        0
    }
}

/// Draws the places of two parents among `size` individuals. The first is drawn
/// again while it equals the second, at most `MAX_PARENT_REDRAWS` times, and is
/// then settled, so that the two differ wherever two individuals exist.
pub fn pick_parents(size: usize, rng: &mut StdRng) -> (parents: (usize, usize))
    requires
        size > 0,
    ensures
        parents.0 < size,
        parents.1 < size,
        size >= 2 ==> parents.0 != parents.1,
{
    let mut first = draw_below(rng, size);
    let second = draw_below(rng, size);
    let mut redraws: usize = 0;
    while first == second && size >= 2 && redraws < MAX_PARENT_REDRAWS
        invariant
            first < size,
            second < size,
            size > 0,
            redraws <= MAX_PARENT_REDRAWS,
        decreases MAX_PARENT_REDRAWS - redraws,
    {
        first = draw_below(rng, size);
        redraws += 1;
    }
    (settle(size, first, second), second)
}

/// Makes the child of two parents under the id `id`.
pub fn offspring(id: u64, first: &Individual, second: &Individual) -> (child: Individual)
    requires
        first.wf(),
        second.wf(),
        first@.alleles.len() == second@.alleles.len(),
    ensures
        child.wf(),
        child@ == child_of(id, first@, second@),
{
    let mut genome = first.positions().clone();
    let mut other = second.positions().clone();
    assert(genome@ =~= first@.alleles);
    assert(other@ =~= second@.alleles);
    let cut: usize = genome.len() / 2;
    genome.truncate(cut);
    let mut tail = other.split_off(cut);
    genome.append(&mut tail);
    proof {
        lemma_spliced(first@.alleles, second@.alleles);
    }
    let network = first.network().duplicate();
    Individual::fitted(id, genome, network)
}

/// Computes the id after `id`.
pub fn next_id(id: u64) -> (next: u64)
    ensures
        next == successor(id),
{
    if id == u64::MAX {
        0
    } else {
        id + 1
    }
}

/// Adding the child of two survivors refills the population by one more.
pub proof fn lemma_refill_step(
    before: Seq<Individual>,
    survivors: Seq<Individual>,
    first_id: u64,
    child: Individual,
    one: int,
    two: int,
)
    requires
        refilled_from(survivors, before, before.len(), first_id),
        0 <= one < survivors.len(),
        0 <= two < survivors.len(),
        survivors.len() >= 2 ==> one != two,
        child@ == child_of(
            nth_id(first_id, (before.len() - survivors.len()) as nat),
            before[one]@,
            before[two]@,
        ),
    ensures
        refilled_from(survivors, before.push(child), before.len() + 1, first_id),
{
    let after = before.push(child);
    let start = survivors.len() as int;
    assert(after.subrange(0, start) =~= before.subrange(0, start));
    assert forall|at: int| start <= at < after.len() implies #[trigger] is_child_at(
        after,
        at,
        start,
        nth_id(first_id, (at - start) as nat),
    ) by {
        let id = nth_id(first_id, (at - start) as nat);
        if at < before.len() {
            assert(is_child_at(before, at, start, id));
            let (a, b) = choose|a: int, b: int|
                {
                    &&& 0 <= a < start
                    &&& 0 <= b < start
                    &&& (start >= 2 ==> a != b)
                    &&& before[at]@ == #[trigger] child_of(id, before[a]@, before[b]@)
                };
            assert(after[at]@ == child_of(id, after[a]@, after[b]@));
        } else {
            assert(after[at]@ == child_of(id, after[one]@, after[two]@));
        }
    }
}

/// Every newcomer of a refilled population has its genome from two survivors, two
/// different ones where two exist: the alleles before the cut from the one, the
/// alleles from the cut on from the other, place by place.
pub proof fn lemma_children_halves(
    survivors: Seq<Individual>,
    refilled: Seq<Individual>,
    target_size: nat,
    first_id: u64,
    node_count: nat,
    at: int,
)
    requires
        genomes_have(survivors, node_count),
        refilled_from(survivors, refilled, target_size, first_id),
        survivors.len() <= at < target_size,
    ensures
        refilled[at]@.alleles.len() == node_count,
        exists|one: int, two: int|
            {
                &&& 0 <= one < survivors.len()
                &&& 0 <= two < survivors.len()
                &&& (survivors.len() >= 2 ==> one != two)
                &&& #[trigger] halves_from(
                    refilled[at]@.alleles,
                    survivors[one]@.alleles,
                    survivors[two]@.alleles,
                )
            },
{
    let start = survivors.len() as int;
    let id = nth_id(first_id, (at - start) as nat);
    assert(is_child_at(refilled, at, start, id));
    let (a, b) = choose|a: int, b: int|
        {
            &&& 0 <= a < start
            &&& 0 <= b < start
            &&& (start >= 2 ==> a != b)
            &&& refilled[at]@ == #[trigger] child_of(id, refilled[a]@, refilled[b]@)
        };
    assert(refilled[a] == refilled.subrange(0, start)[a]);
    assert(refilled[b] == refilled.subrange(0, start)[b]);
    lemma_spliced(survivors[a]@.alleles, survivors[b]@.alleles);
    assert(halves_from(refilled[at]@.alleles, survivors[a]@.alleles, survivors[b]@.alleles));
}

/// Crossover keeps the genome length: where the survivors are well formed and have
/// genomes of `node_count` alleles, so has every newcomer.
pub proof fn lemma_refilled_genomes(
    survivors: Seq<Individual>,
    refilled: Seq<Individual>,
    target_size: nat,
    first_id: u64,
    node_count: nat,
)
    requires
        well_formed(survivors),
        genomes_have(survivors, node_count),
        refilled_from(survivors, refilled, target_size, first_id),
    ensures
        well_formed(refilled),
        genomes_have(refilled, node_count),
{
    let start = survivors.len() as int;
    assert forall|at: int| 0 <= at < refilled.len() implies (#[trigger] refilled[at]).wf()
        && refilled[at]@.alleles.len() == node_count by {
        if at < start {
            assert(refilled[at] == refilled.subrange(0, start)[at]);
        } else {
            let id = nth_id(first_id, (at - start) as nat);
            assert(is_child_at(refilled, at, start, id));
            let (a, b) = choose|a: int, b: int|
                {
                    &&& 0 <= a < start
                    &&& 0 <= b < start
                    &&& (start >= 2 ==> a != b)
                    &&& refilled[at]@ == #[trigger] child_of(id, refilled[a]@, refilled[b]@)
                };
            assert(refilled[a] == refilled.subrange(0, start)[a]);
            assert(refilled[b] == refilled.subrange(0, start)[b]);
            lemma_spliced(survivors[a]@.alleles, survivors[b]@.alleles);
        }
    }
}

/// Midpoint crossover: refills the population to `target_size`. Each newcomer is
/// the child of two individuals drawn from the survivors, never from the
/// newcomers; the newcomers get the ids from `first_id` on, and the id after the
/// last one's is returned. A population that is already larger
/// than `target_size`, or an empty one that is to be refilled, is refused and left
/// as it was.
pub fn crossover(
    population: &mut Vec<Individual>,
    target_size: usize,
    first_id: u64,
    rng: &mut StdRng,
) -> (r: Result<u64, ExplorationError>)
    requires
        well_formed(old(population)@),
        uniform(old(population)@),
    ensures
        r is Err <==> old(population)@.len() > target_size || (old(population)@.len() == 0
            && target_size > 0),
        r matches Err(e) ==> e == ExplorationError::InvariantViolation && final(population)@ == old(
            population,
        )@,
        r matches Ok(next) ==> {
            &&& next == nth_id(first_id, (target_size - old(population)@.len()) as nat)
            &&& refilled_from(old(population)@, final(population)@, target_size as nat, first_id)
            &&& well_formed(final(population)@)
            &&& uniform(final(population)@)
            &&& forall|n: nat|
                genomes_have(old(population)@, n) ==> genomes_have(final(population)@, n)
        },
{
    let start: usize = population.len();
    if start > target_size || (start == 0 && target_size > 0) {
        return Err(ExplorationError::InvariantViolation);
    }
    let ghost survivors = population@;
    let ghost node_count: nat = if start > 0 {
        survivors[0]@.alleles.len()
    } else {
        0
    };
    let mut id: u64 = first_id;
    proof {
        assert(survivors.subrange(0, survivors.len() as int) =~= survivors);
        assert(genomes_have(survivors, node_count));
    }
    while population.len() < target_size
        invariant
            start == survivors.len(),
            start > 0 || target_size == 0,
            start <= population@.len() <= target_size,
            well_formed(survivors),
            genomes_have(survivors, node_count),
            refilled_from(survivors, population@, population@.len(), first_id),
            id == nth_id(first_id, (population@.len() - start) as nat),
        decreases target_size - population@.len(),
    {
        proof {
            lemma_refilled_genomes(survivors, population@, population@.len(), first_id, node_count);
        }
        let parents = pick_parents(start, rng);
        let child = offspring(id, &population[parents.0], &population[parents.1]);
        proof {
            lemma_refill_step(
                population@,
                survivors,
                first_id,
                child,
                parents.0 as int,
                parents.1 as int,
            );
        }
        population.push(child);
        id = next_id(id);
    }
    proof {
        lemma_refilled_genomes(survivors, population@, population@.len(), first_id, node_count);
        assert forall|n: nat| genomes_have(survivors, n) implies genomes_have(population@, n) by {
            if start > 0 {
                assert(survivors[0]@.alleles.len() == n);
            } else {
                assert(population@ =~= survivors);
            }
        }
    }
    Ok(id)
}

} // verus!
