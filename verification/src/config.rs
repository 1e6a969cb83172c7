//! Configuration for the discovery service: an optional bearer credential,
//! read from the environment by the surrounding binary and passed in as a
//! value, so the library stays free of ambient state.

use vstd::prelude::*;

verus! {

/// Settings for package-management operations: an optional access token for
/// the discovery service's API.
pub struct Config {
    /// Optional access token for authenticated discovery requests.
    pub github_token: Option<String>,
}

impl Config {
    /// A configuration holding the given token, if any.
    pub fn new(github_token: Option<String>) -> (c: Config)
        ensures
            c.github_token == github_token,
    {
        Config { github_token }
    }

    /// Whether a token is configured.
    pub fn has_token(&self) -> (r: bool)
        ensures
            r == (self.github_token is Some),
    {
        self.github_token.is_some()
    }

    /// The authorization header for discovery requests: the bearer form of
    /// the token, or nothing where no token is configured.
    pub fn get_auth_header(&self) -> (r: Option<String>)
        ensures
            r is Some <==> self.github_token is Some,
            r matches Some(h) ==> h@ == "Bearer "@ + self.github_token->0@,
    {
        match &self.github_token {
            Some(t) => {
                let mut s = String::from_str("Bearer ");
                s.append(t.as_str());
                Some(s)
            },
            None => None,
        }
    }
}

} // verus!
