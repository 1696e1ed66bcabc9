//! Extensions carried along with a message head.
use vstd::prelude::*;

verus! {

/// The reason phrase of a response, where it is not the canonical one for its status.
#[derive(Clone, PartialEq, Eq, Debug)]
pub struct Reason(pub Vec<u8>);

impl Reason {
    /// The phrase itself.
    pub fn as_bytes(&self) -> (r: &[u8])
        ensures
            r@ == self.0@,
    {
        self.0.as_slice()
    }
}

} // verus!
