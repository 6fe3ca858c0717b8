//! What providers have in common.
use vstd::prelude::*;

use crate::blueprint::auth;

verus! {

/// Why a request was not authenticated.
#[derive(Clone, Copy, Debug, PartialEq, Eq, PartialOrd, Ord, Structural)]
pub enum AuthError {
    /// The request brings nothing to authenticate it by.
    Missing,
    /// The request could not be checked, usually because fetching what is needed failed.
    ValidationCheckFailed,
    /// The request was checked and does not pass.
    Invalid,
}

/// The message of an error.
pub open spec fn auth_message(e: AuthError) -> Seq<char> {
    match e {
        AuthError::Missing => "Haven't found auth parameters"@,
        AuthError::ValidationCheckFailed => "Couldn't validate auth request"@,
        AuthError::Invalid => "Auth validation failed"@,
    }
}

impl AuthError {
    /// The message of the error.
    pub fn to_string(&self) -> (res: String)
        ensures
            res@ == auth_message(*self),
    {
        match self {
            AuthError::Missing => "Haven't found auth parameters".to_string(),
            AuthError::ValidationCheckFailed => "Couldn't validate auth request".to_string(),
            AuthError::Invalid => "Auth validation failed".to_string(),
        }
    }
}

/// Authenticates by user name and password.
pub struct BasicProvider {
    pub options: auth::BasicProvider,
}

impl BasicProvider {
    /// The provider with the settings.
    pub fn new(options: auth::BasicProvider) -> (res: BasicProvider)
        ensures
            res.options == options,
    {
        BasicProvider { options }
    }
}

/// Authenticates by JSON web tokens; the client fetches the keys that they are signed with.
pub struct JwtProvider<C> {
    pub options: auth::JwtProvider,
    pub client: C,
}

impl<C> JwtProvider<C> {
    /// The provider with the settings.
    pub fn new(options: auth::JwtProvider, client: C) -> (res: JwtProvider<C>)
        ensures
            res.options == options,
            res.client == client,
    {
        JwtProvider { options, client }
    }
}

/// A provider.
pub enum AuthProvider<C> {
    Basic(BasicProvider),
    Jwt(JwtProvider<C>),
}

impl<C> AuthProvider<C> {
    /// The provider of the kind that the settings are for.
    pub fn from_config(config: auth::AuthProvider, client: C) -> (res: AuthProvider<C>)
        ensures
            match config {
                auth::AuthProvider::Basic(options) => res == AuthProvider::<C>::Basic(
                    BasicProvider { options },
                ),
                auth::AuthProvider::Jwt(options) => res == AuthProvider::Jwt(
                    JwtProvider { options, client },
                ),
            },
    {
        match config {
            auth::AuthProvider::Basic(options) => AuthProvider::Basic(BasicProvider::new(options)),
            auth::AuthProvider::Jwt(options) => AuthProvider::Jwt(JwtProvider::new(options, client)),
        }
    }
}

/// Each error has its own message.
pub proof fn law_messages_tell_errors_apart(e: AuthError)
    ensures
        e is Missing <==> auth_message(e) == "Haven't found auth parameters"@,
        e is ValidationCheckFailed <==> auth_message(e) == "Couldn't validate auth request"@,
        e is Invalid <==> auth_message(e) == "Auth validation failed"@,
{
    reveal_strlit("Haven't found auth parameters");
    reveal_strlit("Couldn't validate auth request");
    reveal_strlit("Auth validation failed");
    assert("Haven't found auth parameters"@[0] == 'H');
    assert("Couldn't validate auth request"@[0] == 'C');
    assert("Auth validation failed"@[0] == 'A');
}

} // verus!
