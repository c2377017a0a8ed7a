use vstd::prelude::*;

verus! {

/// What can go wrong while a population is explored.
#[derive(Clone, Copy, Debug, PartialEq, Eq, Structural)]
pub enum ExplorationError {
    /// Every selection weight is zero, so no individual can be drawn.
    DegenerateWeights,
    /// The simulation gave no usable outcome for one individual.
    EvaluationFailure,
    /// The network was not generated as asked: it holds a node without any edge, or
    /// more nodes were asked for than the generator takes.
    TopologyGenerationFailure,
    /// A structural rule of the population or of a network was broken.
    InvariantViolation,
}

impl ExplorationError {
    /// True for the kinds that end a run; the others concern one individual or one
    /// node and leave the run going.
    pub open spec fn is_fatal(self) -> bool {
        self == ExplorationError::DegenerateWeights || self == ExplorationError::InvariantViolation
    }

    pub fn fatal(&self) -> (r: bool)
        ensures
            r == self.is_fatal(),
    {
        match self {
            ExplorationError::DegenerateWeights => true,
            ExplorationError::InvariantViolation => true,
            ExplorationError::EvaluationFailure => false,
            ExplorationError::TopologyGenerationFailure => false,
        }
    }

    /// A short name of the kind, for reports.
    pub fn name(&self) -> (r: &'static str)
        ensures
            r@ == error_name(*self),
    {
        match self {
            ExplorationError::DegenerateWeights => "DegenerateWeights",
            ExplorationError::EvaluationFailure => "EvaluationFailure",
            ExplorationError::TopologyGenerationFailure => "TopologyGenerationFailure",
            ExplorationError::InvariantViolation => "InvariantViolation",
        }
    }
}

pub open spec fn error_name(e: ExplorationError) -> Seq<char> {
    match e {
        ExplorationError::DegenerateWeights => "DegenerateWeights"@,
        ExplorationError::EvaluationFailure => "EvaluationFailure"@,
        ExplorationError::TopologyGenerationFailure => "TopologyGenerationFailure"@,
        ExplorationError::InvariantViolation => "InvariantViolation"@,
    }
}

} // verus!
