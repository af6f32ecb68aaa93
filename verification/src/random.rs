//! Randomness, taken on trust from the `rand` crate: password generation
//! and the shuffle that spreads IP allocations. Nothing here promises which
//! values come out, only what shape every outcome has.

use vstd::prelude::*;

use rand::distributions::Alphanumeric;
use rand::seq::SliceRandom;
use rand::{thread_rng, Rng};

verus! {

/// An ASCII letter or digit.
pub open spec fn is_alnum_char(c: char) -> bool {
    ||| ('a' <= c && c <= 'z')
    ||| ('A' <= c && c <= 'Z')
    ||| ('0' <= c && c <= '9')
}

/// A freshly generated instance password: sixteen characters, each one an
/// ASCII letter or digit.
pub open spec fn is_password(s: Seq<char>) -> bool {
    s.len() == 16 && forall|j: int| 0 <= j < s.len() ==> is_alnum_char(#[trigger] s[j])
}

/// Relies on rand's `Alphanumeric` distribution: every sampled byte is an
/// ASCII letter or digit.
#[verifier::external_body]
pub fn random_password() -> (r: String)
    ensures
        is_password(r@),
{
    thread_rng().sample_iter(&Alphanumeric).take(16).map(char::from).collect()
}

/// Relies on `SliceRandom::shuffle`: a Fisher-Yates shuffle permutes the
/// elements in place, so the multiset of elements is unchanged.
#[verifier::external_body]
pub fn shuffle_strings(v: &mut Vec<String>)
    ensures
        final(v)@.to_multiset() == old(v)@.to_multiset(),
{
    v.shuffle(&mut thread_rng());
}

} // verus!
