//! Host-provided cryptographic entropy for boot seeding and guest devices.

use vstd::prelude::*;

verus! {

#[derive(Clone, Copy, Debug, PartialEq, Eq, Structural)]
pub struct EntropyError;

/// What a source has yet to deliver: the answer that the `i`th request from
/// now on gets, should it ask for `len` bytes. Any answers are possible, equal
/// requests need not be answered alike, and nothing is known of an answer
/// before it has come.
pub struct Draws {
    pub answers: spec_fn(nat, nat) -> Result<Seq<u8>, EntropyError>,
}

impl Draws {
    /// The answer to a request of `len` bytes.
    pub open spec fn drawn(self, len: nat) -> Result<Seq<u8>, EntropyError> {
        (self.answers)(0, len)
    }

    /// What is left after one request.
    pub open spec fn rest(self) -> Draws {
        Draws { answers: |i: nat, len: nat| (self.answers)(i + 1, len) }
    }
}

/// A source of entropy.
pub trait EntropySource {
    /// What the source has yet to deliver.
    spec fn draws(&self) -> Draws;

    /// Fills the complete destination with cryptographic entropy.
    ///
    /// # Errors
    ///
    /// Returns an error when the host cannot supply the requested bytes.
    fn fill(&mut self, destination: &mut [u8]) -> (r: Result<(), EntropyError>)
        ensures
            final(destination)@.len() == old(destination)@.len(),
            old(self).draws().drawn(old(destination)@.len()) == match r {
                Ok(_) => Ok::<Seq<u8>, EntropyError>(final(destination)@),
                Err(error) => Err::<Seq<u8>, EntropyError>(error),
            },
            final(self).draws() == old(self).draws().rest(),
    ;
}

} // verus!
