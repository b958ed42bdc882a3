use vstd::prelude::*;

verus! {

/// The families of probability distributions that a driver can follow.
#[derive(Debug, PartialEq, Eq, Structural, Clone, Copy)]
pub enum Distributions {
    Uniform,
    Normal,
    Bernoulli,
    Constant,
    Triangular,
    Pert,
}

/// The display name of a family.
pub open spec fn family_name(d: Distributions) -> Seq<char> {
    match d {
        Distributions::Uniform => "Uniform"@,
        Distributions::Normal => "Normal"@,
        Distributions::Bernoulli => "Bernoulli"@,
        Distributions::Constant => "Constant"@,
        Distributions::Triangular => "Triangular"@,
        Distributions::Pert => "Pert"@,
    }
}

impl Default for Distributions {
    /// A driver follows a normal distribution until told otherwise.
    fn default() -> (r: Self)
        ensures
            r == Distributions::Normal,
    {
        Distributions::Normal
    }
}

impl Distributions {
    /// The name under which the family is shown to a user.
    pub fn name(&self) -> (r: &'static str)
        ensures
            r@ == family_name(*self),
    {
        match self {
            Distributions::Uniform => "Uniform",
            Distributions::Normal => "Normal",
            Distributions::Bernoulli => "Bernoulli",
            Distributions::Constant => "Constant",
            Distributions::Triangular => "Triangular",
            Distributions::Pert => "Pert",
        }
    }
}

} // verus!
