//! The ways in which hashing can be refused.

use vstd::prelude::*;

verus! {

/// Why an evaluation was refused. Each is a mistake of the caller: none is
/// worth a second try.
#[derive(Debug, Clone, Copy, PartialEq, Eq, Structural)]
pub enum Error {
    /// The input packs into more field elements than the permutation is wide.
    WidthOverflow,
    /// The two inputs of a two-to-one combination differ in length.
    LengthMismatch,
    /// A circuit variable was asked for a value that was never assigned, or
    /// the permutation left no element to return.
    MissingWitness,
}

impl Error {
    /// The sentence that says what went wrong.
    pub open spec fn message_text(&self) -> Seq<char> {
        match self {
            Error::WidthOverflow => "the input packs into more elements than the permutation is wide"@,
            Error::LengthMismatch => "the left and right inputs differ in length"@,
            Error::MissingWitness => "a circuit variable has no assigned value"@,
        }
    }

    /// A sentence that says what went wrong.
    pub fn message(&self) -> (r: &'static str)
        ensures
            r@ == self.message_text(),
    {
        match self {
            Error::WidthOverflow => "the input packs into more elements than the permutation is wide",
            Error::LengthMismatch => "the left and right inputs differ in length",
            Error::MissingWitness => "a circuit variable has no assigned value",
        }
    }
}

} // verus!
