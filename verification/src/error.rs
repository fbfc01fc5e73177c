use vstd::prelude::*;

verus! {

/// Error raised when a filter cannot reach a decision. The caller treats it
/// as "exclude this partition", recorded as skipped-due-to-error rather than
/// filtered-out. Combinators and decorators never originate errors of their
/// own; they forward a child's error unchanged.
#[derive(Debug)]
pub struct FilterError {
    pub message: String,
}

impl FilterError {
    pub fn new(message: String) -> (r: Self)
        ensures
            r.message == message,
    {
        FilterError { message }
    }

    /// An equal copy of the error, for handing one outcome to two sinks.
    pub fn duplicate(&self) -> (r: Self)
        ensures
            r == *self,
    {
        FilterError { message: self.message.clone() }
    }
}

/// A filter outcome with the error reduced to its message text; the form in
/// which contracts speak about results.
pub open spec fn outcome_of(r: Result<bool, FilterError>) -> Result<bool, Seq<char>> {
    match r {
        Ok(b) => Ok(b),
        Err(e) => Err(e.message@),
    }
}

/// An equal copy of an outcome.
pub fn duplicate_outcome(r: &Result<bool, FilterError>) -> (d: Result<bool, FilterError>)
    ensures
        outcome_of(d) == outcome_of(*r),
{
    match r {
        Ok(b) => Ok(*b),
        Err(e) => Err(e.duplicate()),
    }
}

} // verus!
