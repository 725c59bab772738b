//! Proof cases for benchmarking the proofs dealer, by number of challenges.
//!
//! The cases are generated by the benchmarking suite. None is recorded here,
//! so no number of challenges is supported yet, and neither function can be
//! called.

use vstd::prelude::*;

verus! {

/// The proofs recorded for `number_of_challenges` challenges, if that number
/// is supported.
pub open spec fn recorded_proofs(number_of_challenges: u32) -> Option<Seq<Seq<u8>>> {
    None
}

/// The challenges recorded for `number_of_challenges` challenges, if that
/// number is supported.
pub open spec fn recorded_challenges(number_of_challenges: u32) -> Option<Seq<Seq<u8>>> {
    None
}

/// The proofs to submit for `number_of_challenges` challenges. The number
/// of challenges must be one that is supported.
pub fn fetch_proof(number_of_challenges: u32) -> (proofs: Vec<Vec<u8>>)
    requires
        recorded_proofs(number_of_challenges) is Some,
    ensures
        Some(proofs.deep_view()) == recorded_proofs(number_of_challenges),
{
    match number_of_challenges {
        _ => unreached(),
    }
}

/// The challenges to answer for `number_of_challenges` challenges. The
/// number of challenges must be one that is supported.
pub fn fetch_challenges(number_of_challenges: u32) -> (challenges: Vec<Vec<u8>>)
    requires
        recorded_challenges(number_of_challenges) is Some,
    ensures
        Some(challenges.deep_view()) == recorded_challenges(number_of_challenges),
{
    match number_of_challenges {
        _ => unreached(),
    }
}

} // verus!
