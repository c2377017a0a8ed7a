use crate::error::ExplorationError;
use crate::fitness::Fitness;
use crate::network::{Topology, TopologyView};
use vstd::prelude::*;

verus! {

/// One candidate: its genome, the network it is evaluated on, and its score once it
/// has been evaluated.
#[derive(Debug)]
pub struct Individual {
    id: u64,
    positions: Vec<u32>,
    network: Topology,
    fitness: Option<Fitness>,
}

/// What an `Individual` holds, as plain values.
pub struct IndividualView {
    pub id: u64,
    pub alleles: Seq<u32>,
    pub network: TopologyView,
    pub fitness: Option<Fitness>,
}

impl IndividualView {
    /// The genome has one allele per node of a well-formed network, and a score that
    /// is there lies in the unit interval.
    pub open spec fn wf(self) -> bool {
        &&& self.network.wf()
        &&& self.alleles.len() == self.network.nodes.len()
        &&& (self.fitness matches Some(f) ==> f.wf())
    }

    /// The score that selection goes by: the least one until an evaluation gave one.
    pub open spec fn score(self) -> Fitness {
        match self.fitness {
            Some(f) => f,
            None => Fitness::least(),
        }
    }
}

impl View for Individual {
    type V = IndividualView;

    closed spec fn view(&self) -> IndividualView {
        IndividualView {
            id: self.id,
            alleles: self.positions@,
            network: self.network@,
            fitness: self.fitness,
        }
    }
}

/// The other value of a binary allele: 0 becomes 1, anything else becomes 0.
pub open spec fn flipped(allele: u32) -> u32 {
    if allele == 0 {
        1
    } else {
        0
    }
}

impl Individual {
    pub open spec fn wf(&self) -> bool {
        self@.wf()
    }

    /// An unevaluated individual with the genome `positions` on `network`. Refused
    /// unless the genome has one allele per node.
    pub fn new(id: u64, positions: Vec<u32>, network: Topology) -> (r: Result<
        Individual,
        ExplorationError,
    >)
        requires
            network.wf(),
        ensures
            r is Ok <==> positions@.len() == network@.nodes.len(),
            r matches Ok(individual) ==> individual.wf() && individual@ == (IndividualView {
                id,
                alleles: positions@,
                network: network@,
                fitness: None,
            }),
            r matches Err(e) ==> e == ExplorationError::InvariantViolation,
    {
        if positions.len() != network.node_count() {
            return Err(ExplorationError::InvariantViolation);
        }
        Ok(Individual::fitted(id, positions, network))
    }

    /// An unevaluated individual whose genome is known to fit the network.
    pub fn fitted(id: u64, positions: Vec<u32>, network: Topology) -> (individual: Individual)
        requires
            network.wf(),
            positions@.len() == network@.nodes.len(),
        ensures
            individual.wf(),
            individual@ == (IndividualView {
                id,
                alleles: positions@,
                network: network@,
                fitness: None,
            }),
    {
        Individual { id, positions, network, fitness: None }
    }

    /// Tells whether the individual is well formed.
    pub fn is_valid(&self) -> (ok: bool)
        ensures
            ok == self.wf(),
    {
        if !self.network.is_valid() {
            return false;
        }
        if self.positions.len() != self.network.node_count() {
            return false;
        }
        match self.fitness {
            Some(f) => f.is_valid(),
            None => true,
        }
    }

    pub fn id(&self) -> (id: u64)
        ensures
            id == self@.id,
    {
        self.id
    }

    pub fn positions(&self) -> (positions: &Vec<u32>)
        ensures
            positions@ == self@.alleles,
    {
        &self.positions
    }

    pub fn network(&self) -> (network: &Topology)
        ensures
            network@ == self@.network,
    {
        &self.network
    }

    pub fn fitness(&self) -> (fitness: Option<Fitness>)
        ensures
            fitness == self@.fitness,
    {
        self.fitness
    }

    /// The score that selection goes by.
    pub fn score(&self) -> (score: Fitness)
        ensures
            score == self@.score(),
    {
        match self.fitness {
            Some(f) => f,
            None => Fitness::zero(),
        }
    }

    /// Records the score of an evaluation.
    pub fn record_fitness(&mut self, fitness: Fitness)
        requires
            old(self).wf(),
            fitness.wf(),
        ensures
            final(self).wf(),
            final(self)@ == (IndividualView { fitness: Some(fitness), ..old(self)@ }),
    {
        self.fitness = Some(fitness);
    }

    /// Marks the individual as not evaluated.
    pub fn clear_fitness(&mut self)
        requires
            old(self).wf(),
        ensures
            final(self).wf(),
            final(self)@ == (IndividualView { fitness: None, ..old(self)@ }),
    {
        self.fitness = None;
    }

    /// Flips the allele at `index` and leaves the rest as it is.
    pub fn flip_allele(&mut self, index: usize)
        requires
            old(self).wf(),
            index < old(self)@.alleles.len(),
        ensures
            final(self).wf(),
            final(self)@ == (IndividualView {
                alleles: old(self)@.alleles.update(
                    index as int,
                    flipped(old(self)@.alleles[index as int]),
                ),
                ..old(self)@
            }),
    {
        let now: u32 = if self.positions[index] == 0 {
            1
        } else {
            0
        };
        self.positions.set(index, now);
    }
}

} // verus!
