//! The HTTP/1 wire format.
use vstd::prelude::*;

pub mod decoder;
pub mod encoder;
pub mod framing;
pub mod raw;
pub mod wire;

verus! {

/// `a` equals the lower-case byte `b`, or is its upper-case ASCII letter.
pub open spec fn byte_matches_lower(a: u8, b: u8) -> bool {
    a == b || (65 <= a <= 90 && a + 32 == b)
}

/// Whether `user_data` reads as `lower_case_target` (written in lower case), ASCII
/// letters compared without case.
pub fn byte_case_insensitive_cmp(user_data: &[u8], lower_case_target: &[u8]) -> (r: bool)
    ensures
        r == (user_data@.len() == lower_case_target@.len() && forall|i: int|
            0 <= i < user_data@.len() ==> byte_matches_lower(user_data@[i], lower_case_target@[i])),
{
    if user_data.len() != lower_case_target.len() {
        return false;
    }
    let mut i: usize = 0;
    while i < user_data.len()
        invariant
            i <= user_data@.len(),
            user_data@.len() == lower_case_target@.len(),
            forall|j: int| 0 <= j < i ==> byte_matches_lower(user_data@[j], lower_case_target@[j]),
        decreases user_data@.len() - i,
    {
        let a = user_data[i];
        let b = lower_case_target[i];
        if !(a == b || (a >= 65 && a <= 90 && a + 32 == b)) {
            return false;
        }
        i += 1;
    }
    true
}

} // verus!
