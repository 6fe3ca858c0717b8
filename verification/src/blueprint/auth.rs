//! The settings of authentication providers.
use vstd::prelude::*;

verus! {

/// Basic authentication against the users of a password file.
#[derive(Debug, PartialEq, Eq)]
pub struct BasicProvider {
    pub htpasswd: String,
}

/// Authentication by JSON web tokens. A token must come from the issuer, where one is given, and be
/// meant for one of the audiences, where there are any.
#[derive(Debug, PartialEq, Eq)]
pub struct JwtProvider {
    pub issuer: Option<String>,
    pub audiences: Vec<String>,
}

impl JwtProvider {
    /// Settings that restrict neither the issuer nor the audience.
    pub fn test_value() -> (res: JwtProvider)
        ensures
            res.issuer is None,
            res.audiences@.len() == 0,
    {
        JwtProvider { issuer: None, audiences: Vec::new() }
    }
}

/// The settings of a provider.
#[derive(Debug, PartialEq, Eq)]
pub enum AuthProvider {
    Basic(BasicProvider),
    Jwt(JwtProvider),
}

} // verus!
