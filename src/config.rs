//! Server settings, with defaults for everything that is not given.
use vstd::prelude::*;
use vstd::string::StringExecFns;

verus! {

/// Where the server listens and what it serves.
pub struct Config {
    pub address: String,
    pub serve_dir: String,
    pub openai: EndpointConfig,
    pub google_gemini: EndpointConfig,
}

/// How to reach one verdict oracle.
pub struct EndpointConfig {
    pub disabled: bool,
    pub token: String,
    pub endpoint: String,
    pub rate_limit: Option<u32>,
}

/// An endpoint left unset: disabled, without token or address.
pub open spec fn unset_endpoint(e: EndpointConfig) -> bool {
    &&& e.disabled
    &&& e.token@.len() == 0
    &&& e.endpoint@.len() == 0
    &&& e.rate_limit == Some(0u32)
}

impl Default for EndpointConfig {
    fn default() -> (r: EndpointConfig)
        ensures
            unset_endpoint(r),
    {
        EndpointConfig {
            disabled: true,
            token: String::new(),
            endpoint: String::new(),
            rate_limit: Some(0),
        }
    }
}

impl Default for Config {
    fn default() -> (r: Config)
        ensures
            r.address@ == "0.0.0.0:3000"@,
            r.serve_dir@ == "argue-react/dist"@,
            unset_endpoint(r.openai),
            unset_endpoint(r.google_gemini),
    {
        Config {
            address: String::from_str("0.0.0.0:3000"),
            serve_dir: String::from_str("argue-react/dist"),
            openai: EndpointConfig::default(),
            google_gemini: EndpointConfig::default(),
        }
    }
}

} // verus!
