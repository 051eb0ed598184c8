use vstd::prelude::*;
use crate::errors::CompilerError;

verus! {

/// A walk over a program that finds errors.
pub trait Check {
    /// The errors that the walk has found, in the order in which it found
    /// them.
    fn get_errors(self) -> Vec<CompilerError>;
}

/// The messages of errors.
pub open spec fn messages(errors: Seq<CompilerError>) -> Seq<Seq<char>> {
    Seq::new(errors.len(), |i: int| errors[i].message@)
}

/// Adds an error with a message to errors.
pub fn report(errors: &mut Vec<CompilerError>, message: &str)
    ensures
        messages(final(errors)@) == messages(old(errors)@) + seq![message@],
{
    errors.push(CompilerError::new(message));
    assert(messages(errors@) =~= messages(old(errors)@) + seq![message@]);
}

} // verus!
