use vstd::prelude::*;
use crate::drivers::Driver;

verus! {

/// A distribution whose parameters lie outside its family's domain.
#[derive(Debug, PartialEq, Eq, Structural, Clone, Copy)]
pub enum DistributionError {
    /// A uniform distribution whose minimum exceeds its maximum.
    Uniform,
    /// A normal distribution with a negative standard deviation.
    Normal,
    /// A Bernoulli distribution whose probability lies outside `[0, 1]`.
    Bernoulli,
    /// A PERT distribution whose mode lies outside `[min, max]`.
    Pert,
    /// A triangular distribution whose mode lies outside `[min, max]`.
    Triangular,
}

/// Why a simulation run could not be carried out.
#[derive(Debug, PartialEq, Eq, Structural, Clone, Copy)]
pub enum SimError {
    /// A driver that every run needs was not given.
    MissingParameter(Driver),
    /// The run was asked for fewer than one trial.
    NoTrials,
    /// A trial's row count does not fit in memory.
    TooManyRows,
    /// A distribution could not be built from its parameters.
    Distribution(DistributionError),
}

impl DistributionError {
    /// The domain constraint that was violated.
    pub fn constraint(&self) -> (r: &'static str)
        ensures
            r@ == constraint_text(*self),
    {
        match self {
            DistributionError::Uniform => "min <= max must hold",
            DistributionError::Normal => "standard deviation must not be negative",
            DistributionError::Bernoulli => "probability must lie in [0, 1]",
            DistributionError::Pert => "min <= mode <= max must hold",
            DistributionError::Triangular => "min <= mode <= max must hold",
        }
    }
}

/// The text that describes a violated domain constraint.
pub open spec fn constraint_text(e: DistributionError) -> Seq<char> {
    match e {
        DistributionError::Uniform => "min <= max must hold"@,
        DistributionError::Normal => "standard deviation must not be negative"@,
        DistributionError::Bernoulli => "probability must lie in [0, 1]"@,
        DistributionError::Pert => "min <= mode <= max must hold"@,
        DistributionError::Triangular => "min <= mode <= max must hold"@,
    }
}

} // verus!
