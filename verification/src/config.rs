//! Provider configuration: the API credential and the header value built
//! from it.  Reading the credential from the environment is the
//! application's task; the library only carries and formats it.

use vstd::prelude::*;

verus! {

/// Configuration for the completion and embedding provider.
#[derive(Debug, Clone)]
pub struct Config {
    api_key: String,
}

impl Config {
    /// The credential this configuration carries.
    pub closed spec fn key(&self) -> Seq<char> {
        self.api_key@
    }

    /// A configuration holding the given API key.
    pub fn new(api_key: String) -> (r: Self)
        ensures
            r.key() == api_key@,
    {
        Config { api_key }
    }

    /// The HTTP `Authorization` header value for this key.
    pub fn authorization_value(&self) -> (r: String)
        ensures
            r@ == "Bearer "@ + self.key(),
    {
        let mut r = String::from_str("Bearer ");
        r.append(self.api_key.as_str());
        r
    }
}

} // verus!
