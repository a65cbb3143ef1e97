use vstd::prelude::*;

verus! {

/// The OAuth client registration.
#[derive(Clone, Debug)]
pub struct OAuthConfig {
    pub client_id: String,
    pub client_secret: String,
}

/// Site settings, read from the environment by the server.
#[derive(Clone, Debug)]
pub struct Config {
    pub domain: String,
    pub oauth: OAuthConfig,
}

} // verus!
