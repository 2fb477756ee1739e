//! What can go wrong while rules are checked and applied. Each of these ends
//! the work on the file at hand; none is retried.

use vstd::prelude::*;

verus! {

/// A failure while a constraint is checked.
#[derive(Debug, Clone, PartialEq, Eq)]
pub enum ConstraintError {
    /// A query of the constraint is no valid pattern: it holds a character
    /// beyond ASCII, or it does not compile. `query` is its text after
    /// substitution.
    QueryCompilation { query: String },
    /// A query of the constraint refers to a tag that nothing binds.
    UnboundTag { tag: String },
}

/// A failure while a constraint is checked, as plain values.
pub enum Fault {
    QueryCompilation(Seq<char>),
    UnboundTag(Seq<char>),
}

impl ConstraintError {
    /// The failure as plain values.
    pub open spec fn view(&self) -> Fault {
        match *self {
            ConstraintError::QueryCompilation { query } => Fault::QueryCompilation(query@),
            ConstraintError::UnboundTag { tag } => Fault::UnboundTag(tag@),
        }
    }
}

/// The outcome of a check, as plain values.
pub open spec fn check_view(r: Result<bool, ConstraintError>) -> Result<bool, Fault> {
    match r {
        Ok(b) => Ok(b),
        Err(e) => Err(e@),
    }
}

} // verus!
