use crate::error::ExplorationError;
use crate::fitness::{
    lemma_least, lemma_order_transitive, lemma_weight_bounded, lemma_weight_monotone, WEIGHT_SCALE,
};
use crate::individual::Individual;
use crate::population::{
    genomes_have, is_selection_of, lemma_selection_keeps_genomes, no_score_lost, reaches, uniform,
    well_formed,
};
use crate::random::{
    has_positive, lemma_total_weight_bounded, sample_index, total_weight, weighted_sampler,
};
use rand::rngs::StdRng;
use vstd::prelude::*;

verus! {

/// The weight of each individual: `floor(score * 100)`.
pub open spec fn weights_of(population: Seq<Individual>) -> Seq<u128> {
    Seq::new(population.len(), |i: int| population[i]@.score().weight() as u128)
}

/// The place that is paired with the drawn one: the next for the first place, the
/// one before for every other.
pub open spec fn partner_of(drawn: int) -> int {
    if drawn == 0 {
        1
    } else {
        drawn - 1
    }
}

/// The place that leaves: the drawn one where it scores less than its partner, the
/// partner otherwise, also where the two score the same.
pub open spec fn loser_of(population: Seq<Individual>, drawn: int) -> int {
    if population[drawn]@.score().lt(population[partner_of(drawn)]@.score()) {
        drawn
    } else {
        partner_of(drawn)
    }
}

/// The place of the pair that stays.
pub open spec fn winner_of(population: Seq<Individual>, drawn: int) -> int {
    if loser_of(population, drawn) == drawn {
        partner_of(drawn)
    } else {
        drawn
    }
}

/// The population after the rounds that the draws stand for, one draw a round: in
/// each round the weaker of the drawn individual and its partner leaves.
pub open spec fn after_rounds(population: Seq<Individual>, draws: Seq<int>) -> Seq<Individual>
    decreases draws.len(),
{
    if draws.len() == 0 {
        population
    } else {
        let before = after_rounds(population, draws.drop_last());
        before.remove(loser_of(before, draws.last()))
    }
}

/// Every draw could be made: it names an individual of the population as it then
/// stood, which had a partner and a positive weight.
pub open spec fn draws_are_possible(population: Seq<Individual>, draws: Seq<int>) -> bool
    decreases draws.len(),
{
    if draws.len() == 0 {
        true
    } else {
        let before = after_rounds(population, draws.drop_last());
        &&& draws_are_possible(population, draws.drop_last())
        &&& before.len() >= 2
        &&& 0 <= draws.last() < before.len()
        &&& weights_of(before)[draws.last()] > 0
    }
}

/// `selected` is what a selection can leave of `before`: the population after
/// `floor(size / 2)` rounds of possible draws.
pub open spec fn selected_from(before: Seq<Individual>, selected: Seq<Individual>) -> bool {
    exists|draws: Seq<int>|
        {
            &&& draws.len() == rounds_of(before.len())
            &&& draws_are_possible(before, draws)
            &&& selected == #[trigger] after_rounds(before, draws)
        }
}

/// The number of individuals that one selection removes: half of them, rounded down.
pub open spec fn rounds_of(size: nat) -> nat {
    size / 2
}

/// A population of even size is halved: what one selection leaves of it is
/// `floor(size / 2)` individuals. Of an odd size the larger half stays.
pub proof fn lemma_selection_halves(size: nat)
    ensures
        size % 2 == 0 ==> size - rounds_of(size) == size / 2,
        size % 2 == 1 ==> size - rounds_of(size) == size / 2 + 1,
{
}

/// The weight of every individual, in the order of the population.
pub fn weigh(population: &Vec<Individual>) -> (weights: Vec<u128>)
    requires
        well_formed(population@),
    ensures
        weights@ == weights_of(population@),
        forall|i: int| 0 <= i < weights@.len() ==> #[trigger] weights@[i] <= WEIGHT_SCALE,
{
    let mut weights: Vec<u128> = Vec::new();
    let mut i: usize = 0;
    while i < population.len()
        invariant
            i <= population.len(),
            well_formed(population@),
            weights@ == weights_of(population@).take(i as int),
            forall|k: int| 0 <= k < weights@.len() ==> #[trigger] weights@[k] <= WEIGHT_SCALE,
        decreases population.len() - i,
    {
        let score = population[i].score();
        proof {
            assert(population@[i as int].wf());
            lemma_least(score);
        }
        let weight = score.selection_weight();
        weights.push(weight as u128);
        i += 1;
        assert(weights@ =~= weights_of(population@).take(i as int));
    }
    assert(weights@ =~= weights_of(population@));
    weights
}

/// Removes the weaker of the drawn individual and its partner, from the population
/// and from the weights alike, and returns the place it held.
pub fn eliminate(
    population: &mut Vec<Individual>,
    weights: &mut Vec<u128>,
    drawn: usize,
) -> (removed: usize)
    requires
        well_formed(old(population)@),
        old(weights)@ == weights_of(old(population)@),
        old(population)@.len() >= 2,
        drawn < old(population)@.len(),
    ensures
        removed == loser_of(old(population)@, drawn as int),
        final(population)@ == old(population)@.remove(removed as int),
        final(weights)@ == old(weights)@.remove(removed as int),
        final(weights)@ == weights_of(final(population)@),
        well_formed(final(population)@),
        !old(population)@[winner_of(old(population)@, drawn as int)]@.score().lt(
            old(population)@[removed as int]@.score(),
        ),
{
    let partner: usize = if drawn == 0 {
        1
    } else {
        drawn - 1
    };
    let drawn_score = population[drawn].score();
    let partner_score = population[partner].score();
    let removed: usize = if drawn_score.less_than(&partner_score) {
        drawn
    } else {
        partner
    };
    proof {
        if removed == drawn {
            let a = drawn_score;
            let b = partner_score;
            assert(a.num() * b.den() < b.num() * a.den());
            assert(!(b.num() * a.den() < a.num() * b.den()));
        }
    }
    population.remove(removed);
    weights.remove(removed);
    proof {
        assert(weights@ =~= weights_of(population@));
    }
    removed
}

/// The place that an individual of the pair's winner holds once the loser is gone.
pub open spec fn place_after(place: int, removed: int) -> int {
    if place > removed {
        place - 1
    } else {
        place
    }
}

/// Of the two that are paired, the one that stays scores no less than the one that
/// leaves, and both are places of the population.
pub proof fn lemma_pair(population: Seq<Individual>, drawn: int)
    requires
        well_formed(population),
        population.len() >= 2,
        0 <= drawn < population.len(),
    ensures
        0 <= loser_of(population, drawn) < population.len(),
        0 <= winner_of(population, drawn) < population.len(),
        loser_of(population, drawn) != winner_of(population, drawn),
        !population[winner_of(population, drawn)]@.score().lt(
            population[loser_of(population, drawn)]@.score(),
        ),
{
    let a = population[drawn]@.score();
    let b = population[partner_of(drawn)]@.score();
    if a.lt(b) {
        assert(!(b.num() * a.den() < a.num() * b.den()));
    }
}

/// The score of a well-formed individual is a score.
pub proof fn lemma_score_wf(individual: Individual)
    requires
        individual.wf(),
    ensures
        individual@.score().wf(),
{
    lemma_least(individual@.score());
}

/// Removing the weaker of a pair loses no score: whatever the population reached
/// before, it still reaches.
pub proof fn lemma_elimination_keeps_scores(
    before: Seq<Individual>,
    drawn: int,
    initial: Seq<Individual>,
)
    requires
        well_formed(before),
        well_formed(initial),
        before.len() >= 2,
        0 <= drawn < before.len(),
        no_score_lost(before, initial),
    ensures
        no_score_lost(before.remove(loser_of(before, drawn)), initial),
{
    let loser = loser_of(before, drawn);
    let winner = winner_of(before, drawn);
    let after = before.remove(loser);
    lemma_pair(before, drawn);
    assert forall|j: int| 0 <= j < initial.len() implies reaches(
        after,
        (#[trigger] initial[j])@.score(),
    ) by {
        let target = initial[j]@.score();
        assert(reaches(before, target));
        let i = choose|i: int| 0 <= i < before.len() && !(#[trigger] before[i])@.score().lt(target);
        let stays = if i == loser {
            winner
        } else {
            i
        };
        if i == loser {
            lemma_score_wf(before[winner]);
            lemma_score_wf(before[loser]);
            lemma_score_wf(initial[j]);
            lemma_order_transitive(before[winner]@.score(), before[loser]@.score(), target);
        }
        let place = place_after(stays, loser);
        assert(after[place] == before[stays]);
        assert(0 <= place < after.len() && !after[place]@.score().lt(target));
    }
}

/// Where the drawn individual has a positive weight, some weight is still positive
/// once the weaker of the pair is gone.
pub proof fn lemma_elimination_keeps_a_weight(before: Seq<Individual>, drawn: int)
    requires
        well_formed(before),
        before.len() >= 2,
        0 <= drawn < before.len(),
        weights_of(before)[drawn] > 0,
    ensures
        has_positive(weights_of(before.remove(loser_of(before, drawn)))),
{
    let loser = loser_of(before, drawn);
    let winner = winner_of(before, drawn);
    let after = before.remove(loser);
    lemma_pair(before, drawn);
    lemma_score_wf(before[winner]);
    lemma_score_wf(before[drawn]);
    lemma_weight_monotone(before[drawn]@.score(), before[winner]@.score());
    lemma_weight_bounded(before[winner]@.score());
    let place = place_after(winner, loser);
    assert(after[place] == before[winner]);
    assert(weights_of(after)[place] > 0);
}

/// The places that are kept stay in rising order when one of them is dropped.
pub proof fn lemma_elimination_is_selection(
    before: Seq<Individual>,
    kept: Seq<int>,
    initial: Seq<Individual>,
    removed: int,
)
    requires
        is_selection_of(before, kept, initial),
        0 <= removed < before.len(),
    ensures
        is_selection_of(before.remove(removed), kept.remove(removed), initial),
{
    let after = before.remove(removed);
    let places = kept.remove(removed);
    assert forall|i: int| 0 <= i < places.len() implies 0 <= #[trigger] places[i]
        < initial.len() by {
        assert(places[i] == kept[if i < removed { i } else { i + 1 }]);
    }
    assert forall|i: int, j: int| 0 <= i < j < places.len() implies places[i] < places[j] by {
        assert(places[i] == kept[if i < removed { i } else { i + 1 }]);
        assert(places[j] == kept[if j < removed { j } else { j + 1 }]);
    }
    assert forall|i: int| 0 <= i < places.len() implies #[trigger] after[i]
        == initial[places[i]] by {
        let from = if i < removed { i } else { i + 1 };
        assert(places[i] == kept[from]);
        assert(after[i] == before[from]);
    }
}

/// Whatever is drawn, rounds of elimination remove one individual each, keep the
/// others in their order, and lose no score: for every individual of the
/// population one that scores no less is still there. After a round some weight
/// is positive, as some was before the first.
pub proof fn lemma_rounds(initial: Seq<Individual>, draws: Seq<int>)
    requires
        well_formed(initial),
        draws_are_possible(initial, draws),
    ensures
        after_rounds(initial, draws).len() == initial.len() - draws.len(),
        well_formed(after_rounds(initial, draws)),
        exists|kept: Seq<int>| is_selection_of(after_rounds(initial, draws), kept, initial),
        no_score_lost(after_rounds(initial, draws), initial),
        draws.len() > 0 ==> has_positive(weights_of(after_rounds(initial, draws)))
            && has_positive(weights_of(initial)),
    decreases draws.len(),
{
    if draws.len() == 0 {
        let kept = Seq::new(initial.len(), |i: int| i);
        assert(is_selection_of(initial, kept, initial));
        assert forall|j: int| 0 <= j < initial.len() implies reaches(
            initial,
            (#[trigger] initial[j])@.score(),
        ) by {
            let s = initial[j]@.score();
            assert(!s.lt(s));
        }
    } else {
        let earlier = draws.drop_last();
        let drawn = draws.last();
        let before = after_rounds(initial, earlier);
        lemma_rounds(initial, earlier);
        let removed = loser_of(before, drawn);
        let after = before.remove(removed);
        lemma_pair(before, drawn);
        let kept = choose|kept: Seq<int>| is_selection_of(before, kept, initial);
        lemma_elimination_is_selection(before, kept, initial, removed);
        lemma_elimination_keeps_scores(before, drawn, initial);
        lemma_elimination_keeps_a_weight(before, drawn);
        assert forall|i: int| 0 <= i < after.len() implies (#[trigger] after[i]).wf() by {
            assert(after[i] == before[if i < removed { i } else { i + 1 }]);
        }
        if earlier.len() == 0 {
            assert(weights_of(initial)[drawn] > 0);
        }
    }
}

/// One more possible draw is one more round.
pub proof fn lemma_round_played(initial: Seq<Individual>, draws: Seq<int>, drawn: int)
    requires
        draws_are_possible(initial, draws),
        after_rounds(initial, draws).len() >= 2,
        0 <= drawn < after_rounds(initial, draws).len(),
        weights_of(after_rounds(initial, draws))[drawn] > 0,
    ensures
        draws_are_possible(initial, draws.push(drawn)),
        after_rounds(initial, draws.push(drawn)) == after_rounds(initial, draws).remove(
            loser_of(after_rounds(initial, draws), drawn),
        ),
{
    assert(draws.push(drawn).drop_last() =~= draws);
}

/// The weights of a well-formed population can be summed in 128 bits.
pub proof fn lemma_weights_fit(population: Seq<Individual>)
    requires
        well_formed(population),
        population.len() <= usize::MAX,
    ensures
        total_weight(weights_of(population)) <= u128::MAX,
{
    let weights = weights_of(population);
    assert forall|i: int| 0 <= i < weights.len() implies #[trigger] weights[i]
        <= WEIGHT_SCALE by {
        lemma_score_wf(population[i]);
        lemma_weight_bounded(population[i]@.score());
    }
    lemma_total_weight_bounded(weights, WEIGHT_SCALE as nat);
    assert(WEIGHT_SCALE * weights.len() <= u128::MAX) by (nonlinear_arith)
        requires
            weights.len() <= u64::MAX,
            WEIGHT_SCALE == 100,
    ;
}

/// Weighted pairwise elimination: halves the population. In each of
/// `floor(size / 2)` rounds one individual is drawn with a chance in proportion to
/// its weight, paired with its neighbour, and the weaker of the two is removed.
/// Where no individual has a positive weight nothing can be drawn: the population
/// is left as it was and `DegenerateWeights` is returned.
pub fn selection(population: &mut Vec<Individual>, rng: &mut StdRng) -> (r: Result<
    (),
    ExplorationError,
>)
    requires
        well_formed(old(population)@),
    ensures
        r is Err <==> old(population)@.len() >= 2 && !has_positive(
            weights_of(old(population)@),
        ),
        r matches Err(e) ==> e == ExplorationError::DegenerateWeights && final(population)@ == old(
            population,
        )@,
        r is Ok ==> {
            &&& final(population)@.len() == old(population)@.len() - rounds_of(
                old(population)@.len(),
            )
            &&& selected_from(old(population)@, final(population)@)
            &&& exists|kept: Seq<int>| is_selection_of(final(population)@, kept, old(population)@)
            &&& no_score_lost(final(population)@, old(population)@)
            &&& well_formed(final(population)@)
            &&& uniform(old(population)@) ==> uniform(final(population)@)
            &&& forall|n: nat|
                genomes_have(old(population)@, n) ==> genomes_have(final(population)@, n)
        },
{
    let ghost initial = population@;
    let mut weights = weigh(population);
    let rounds: usize = population.len() / 2;
    let ghost mut draws: Seq<int> = Seq::empty();
    let mut round: usize = 0;
    while round < rounds
        invariant
            round <= rounds,
            rounds == initial.len() / 2,
            initial == old(population)@,
            well_formed(initial),
            draws.len() == round,
            draws_are_possible(initial, draws),
            population@ == after_rounds(initial, draws),
            population@.len() == initial.len() - round,
            weights@ == weights_of(population@),
        decreases rounds - round,
    {
        proof {
            lemma_rounds(initial, draws);
            assert(population@.len() == population.len());
            lemma_weights_fit(population@);
        }
        let sampler = match weighted_sampler(&weights) {
            Ok(sampler) => sampler,
            Err(_) => {
                return Err(ExplorationError::DegenerateWeights);
            },
        };
        let drawn = sample_index(&sampler, rng);
        eliminate(population, &mut weights, drawn);
        proof {
            lemma_round_played(initial, draws, drawn as int);
            draws = draws.push(drawn as int);
        }
        round += 1;
    }
    proof {
        lemma_rounds(initial, draws);
        let kept = choose|kept: Seq<int>| is_selection_of(population@, kept, initial);
        lemma_selection_keeps_genomes(population@, kept, initial);
    }
    Ok(())
}

} // verus!
