use vstd::prelude::*;

verus! {

/// Errors raised by the phase ring, the accumulators and the kernels.
#[derive(Debug, Clone, PartialEq, Eq)]
pub enum MathError {
    DivideByZero,
    DomainViolation(&'static str),
    InvalidConfig(&'static str),
}

/// The text that describes an error to a person.
pub open spec fn error_message(e: MathError) -> Seq<char> {
    match e {
        MathError::DivideByZero => "divide by zero"@,
        MathError::DomainViolation(d) => "domain violation: "@ + d@,
        MathError::InvalidConfig(d) => "invalid configuration: "@ + d@,
    }
}

impl MathError {
    /// Renders the error as text: the kind, then the detail.
    pub fn message(&self) -> (s: String)
        ensures
            s@ == error_message(*self),
    {
        match self {
            MathError::DivideByZero => String::from_str("divide by zero"),
            MathError::DomainViolation(d) => {
                let mut s = String::from_str("domain violation: ");
                s.append(d);
                s
            },
            MathError::InvalidConfig(d) => {
                let mut s = String::from_str("invalid configuration: ");
                s.append(d);
                s
            },
        }
    }
}

} // verus!
