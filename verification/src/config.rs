use crate::fitness::Fitness;
use crate::probability::Probability;
use vstd::prelude::*;

verus! {

/// The options of a run.
#[derive(Clone, Copy, Debug)]
pub struct RunConfig {
    /// The number of nodes of the network, and of alleles of every genome.
    pub node_count: u32,
    /// The number of edges that each new node brings into the network.
    pub initial_edges_per_node: usize,
    /// The size of the population at the start and the end of every generation.
    pub population_size: usize,
    /// The chance that an individual is mutated in a generation.
    pub mutation_rate: Probability,
    /// The score at which the run has converged.
    pub desired_fitness: Fitness,
    /// The number of generations after which the run is exhausted.
    pub max_generations: u32,
    /// The number of steps of one simulation.
    pub simulation_step_count: u64,
    /// The chance that an allele of the first generation is 1.
    pub initial_resistant_probability: Probability,
    /// Whether a network with a node that no edge touches is refused.
    pub abort_on_isolated_node: bool,
}

impl RunConfig {
    pub open spec fn wf(self) -> bool {
        &&& self.mutation_rate.wf()
        &&& self.desired_fitness.wf()
        &&& self.initial_resistant_probability.wf()
    }

    /// Tells whether the chances and the desired fitness lie between 0 and 1.
    pub fn is_valid(&self) -> (ok: bool)
        ensures
            ok == self.wf(),
    {
        self.mutation_rate.is_valid() && self.desired_fitness.is_valid()
            && self.initial_resistant_probability.is_valid()
    }
}

} // verus!
