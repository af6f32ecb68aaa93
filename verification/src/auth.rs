//! Request identity: the claims carried by an authenticated caller, and the
//! check that the caller is a known tenant. Token verification against the
//! identity provider happens outside; it hands the extracted claims in.

use vstd::prelude::*;

use crate::errors::AuthError;
use crate::model::{lemma_user_idx, user_idx, State};

verus! {

/// The identity extracted from a verified bearer token.
#[derive(Clone, Debug)]
pub struct UserClaims {
    pub username: String,
    pub email: String,
}

/// A caller is authorized when a user with their username is seeded in the
/// state.
pub fn authorized(state: &State, user: &UserClaims) -> (r: Result<(), AuthError>)
    ensures
        match r {
            Ok(()) => user_idx(state@.users, user.username@) != -1,
            Err(e) => user_idx(state@.users, user.username@) == -1 && e matches
                AuthError::UnauthorizedUser,
        },
{
    proof {
        lemma_user_idx(state@.users, user.username@);
    }
    match state.find_user(user.username.as_str()) {
        Some(_) => Ok(()),
        None => Err(AuthError::UnauthorizedUser),
    }
}

} // verus!
