//! The sign-in state and the decisions that move it: what a stored session
//! restores, and what a login or a registration leads to.

use vstd::prelude::*;
use crate::services::api_client::{LoginResponse, UserProfile};

verus! {

/// Where the sign-in stands.
#[derive(Debug, Clone)]
pub enum AuthStatus {
    /// Not yet looked at the stored session.
    Uninitialized,
    /// Signed out.
    Unauthenticated,
    /// A login or registration is under way.
    Authenticating,
    /// Signed in as this user.
    Authenticated(UserProfile),
    /// The last login or registration failed with this message.
    Failed(String),
}

/// Whether someone is signed in.
pub fn is_authenticated(auth_status: &AuthStatus) -> (r: bool)
    ensures
        r == (*auth_status is Authenticated),
{
    match auth_status {
        AuthStatus::Authenticated(_) => true,
        _ => false,
    }
}

/// The user signed in, if any.
pub fn get_current_user(auth_status: &AuthStatus) -> (r: Option<&UserProfile>)
    ensures
        r is Some <==> *auth_status is Authenticated,
        r matches Some(u) ==> *auth_status == AuthStatus::Authenticated(*u),
{
    match auth_status {
        AuthStatus::Authenticated(user) => Some(user),
        _ => None,
    }
}

/// What the stored session restores at start-up, from the stored token and
/// the stored user: signed in as that user where both are there; signed
/// out otherwise. The second part says whether the stored token is to be
/// deleted: where it is there without a user.
pub fn restored_auth(token: Option<String>, user: Option<UserProfile>) -> (r: (AuthStatus, bool))
    ensures
        match (token, user) {
            (Some(_), Some(u)) => r.0 == AuthStatus::Authenticated(u) && !r.1,
            (Some(_), None) => r.0 is Unauthenticated && r.1,
            (None, _) => r.0 is Unauthenticated && !r.1,
        },
{
    match token {
        Some(_) => match user {
            Some(u) => (AuthStatus::Authenticated(u), false),
            None => (AuthStatus::Unauthenticated, true),
        },
        None => (AuthStatus::Unauthenticated, false),
    }
}

/// What a login's answer leads to: signed in as the answer's user, with its
/// access token to keep; or failed with the message, and no token.
pub fn login_outcome(result: Result<LoginResponse, String>) -> (r: (AuthStatus, Option<String>))
    ensures
        match result {
            Ok(resp) => r.0 == AuthStatus::Authenticated(resp.user) && r.1 == Some(resp.access_token),
            Err(e) => r.0 == AuthStatus::Failed(e) && r.1 is None,
        },
{
    match result {
        Ok(resp) => (AuthStatus::Authenticated(resp.user), Some(resp.access_token)),
        Err(e) => (AuthStatus::Failed(e), None),
    }
}

/// What a registration's answer leads to: signed out (registering does not
/// sign in), or failed with the message.
pub fn register_outcome(result: Result<UserProfile, String>) -> (r: AuthStatus)
    ensures
        match result {
            Ok(_) => r is Unauthenticated,
            Err(e) => r == AuthStatus::Failed(e),
        },
{
    match result {
        Ok(_) => AuthStatus::Unauthenticated,
        Err(e) => AuthStatus::Failed(e),
    }
}

} // verus!
