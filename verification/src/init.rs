use crate::config::RunConfig;
use crate::error::ExplorationError;
use crate::generator::{generate, generated, leaves_isolated, GENERATOR_NODE_LIMIT};
use crate::individual::Individual;
use crate::network::{Topology, TopologyView};
use crate::population::{genomes_have, uniform, well_formed};
use crate::probability::Probability;
use rand::rngs::StdRng;
use vstd::prelude::*;

verus! {

/// Every allele of the genome is 0 or 1.
pub open spec fn is_binary(genome: Seq<u32>) -> bool {
    forall|i: int| 0 <= i < genome.len() ==> #[trigger] genome[i] <= 1
}

/// The population was founded on `network`: `size` unevaluated individuals with
/// the ids `0..size`, each on its own copy of the network, each with a binary
/// genome of one allele per node.
pub open spec fn founded_on(population: Seq<Individual>, network: TopologyView, size: nat) -> bool {
    &&& population.len() == size
    &&& well_formed(population)
    &&& genomes_have(population, network.nodes.len())
    &&& forall|k: int|
        0 <= k < size ==> {
            &&& (#[trigger] population[k])@.id == k
            &&& population[k]@.network == network
            &&& population[k]@.fitness is None
            &&& is_binary(population[k]@.alleles)
        }
}

/// A genome of `length` alleles, each of which is 1 with the chance `resistant`
/// and 0 otherwise, drawn one by one.
pub fn random_genome(length: usize, resistant: &Probability, rng: &mut StdRng) -> (genome: Vec<u32>)
    requires
        resistant.wf(),
    ensures
        genome@.len() == length,
        is_binary(genome@),
        resistant.is_certain() ==> forall|i: int| 0 <= i < length ==> #[trigger] genome@[i] == 1,
        resistant.is_impossible() ==> forall|i: int| 0 <= i < length ==> #[trigger] genome@[i] == 0,
{
    let mut genome: Vec<u32> = Vec::new();
    let mut i: usize = 0;
    while i < length
        invariant
            i <= length,
            resistant.wf(),
            genome@.len() == i,
            is_binary(genome@),
            resistant.is_certain() ==> forall|k: int| 0 <= k < i ==> #[trigger] genome@[k] == 1,
            resistant.is_impossible() ==> forall|k: int| 0 <= k < i ==> #[trigger] genome@[k] == 0,
        decreases length - i,
    {
        let allele: u32 = if resistant.draw(rng) {
            1
        } else {
            0
        };
        genome.push(allele);
        i += 1;
    }
    genome
}

/// Founds a population of `size` individuals on the network.
pub fn found(
    topology: &Topology,
    size: usize,
    resistant: &Probability,
    rng: &mut StdRng,
) -> (population: Vec<Individual>)
    requires
        topology.wf(),
        resistant.wf(),
    ensures
        founded_on(population@, topology@, size as nat),
        uniform(population@),
{
    let node_count: usize = topology.node_count();
    let mut population: Vec<Individual> = Vec::new();
    let mut k: usize = 0;
    while k < size
        invariant
            k <= size,
            topology.wf(),
            resistant.wf(),
            node_count == topology@.nodes.len(),
            founded_on(population@, topology@, k as nat),
        decreases size - k,
    {
        let genome = random_genome(node_count, resistant, rng);
        let individual = Individual::fitted(k as u64, genome, topology.duplicate());
        population.push(individual);
        k += 1;
    }
    population
}

/// Builds the first generation: generates the network, then founds
/// `population_size` individuals on it, each on its own copy. An empty population is
/// refused as a broken rule. A network of more nodes than the generator takes is
/// refused; so is, where the configuration asks for it, a network with a node that
/// no edge touches.
pub fn init_population(config: &RunConfig, rng: &mut StdRng) -> (r: Result<
    Vec<Individual>,
    ExplorationError,
>)
    requires
        config.wf(),
    ensures
        r is Ok <==> {
            &&& config.population_size > 0
            &&& config.node_count <= GENERATOR_NODE_LIMIT
            &&& !(config.abort_on_isolated_node && leaves_isolated(
                config.node_count as nat,
                config.initial_edges_per_node as nat,
            ))
        },
        r matches Err(e) ==> e == if config.population_size == 0 {
            ExplorationError::InvariantViolation
        } else {
            ExplorationError::TopologyGenerationFailure
        },
        r matches Ok(population) ==> {
            &&& uniform(population@)
            &&& founded_on(population@, population@[0]@.network, config.population_size as nat)
            &&& generated(
                population@[0]@.network,
                config.node_count as nat,
                config.initial_edges_per_node as nat,
            )
        },
{
    if config.population_size == 0 {
        return Err(ExplorationError::InvariantViolation);
    }
    let topology = match generate(config.node_count, config.initial_edges_per_node) {
        Ok(topology) => topology,
        Err(e) => {
            return Err(e);
        },
    };
    if config.abort_on_isolated_node {
        let isolated = topology.isolated_nodes();
        if isolated.len() > 0 {
            return Err(ExplorationError::TopologyGenerationFailure);
        }
    }
    let population = found(
        &topology,
        config.population_size,
        &config.initial_resistant_probability,
        rng,
    );
    proof {
        assert(population@[0]@.network == topology@);
    }
    Ok(population)
}

} // verus!
