//! Configuration of the client core.

use vstd::prelude::*;

verus! {

/// Rate limiting behaviour.
#[derive(Debug, Clone, Copy, PartialEq, Eq, Structural)]
pub enum RateLimitMode {
    /// Wait until a credential is admissible before proceeding.
    AutoDelay,
    /// Fail immediately when no credential is admissible.
    ThrowOnLimit,
    /// Bypass admission control entirely.
    Ignore,
}

impl Default for RateLimitMode {
    fn default() -> (r: Self)
        ensures
            r == RateLimitMode::AutoDelay,
    {
        RateLimitMode::AutoDelay
    }
}

/// Credential selection strategy for pools with several keys.
#[derive(Debug, Clone, Copy, PartialEq, Eq, Structural)]
pub enum ApiKeyBalancing {
    /// Use keys in cyclic insertion order.
    RoundRobin,
    /// Select keys pseudo-randomly.
    Random,
}

impl Default for ApiKeyBalancing {
    fn default() -> (r: Self)
        ensures
            r == ApiKeyBalancing::RoundRobin,
    {
        ApiKeyBalancing::RoundRobin
    }
}

/// Configuration for the client core.
#[derive(Debug, Clone)]
pub struct TornClientConfig {
    /// One or more API keys (required, non-empty at construction).
    pub api_keys: Vec<String>,
    /// Rate limit behaviour. Default: `AutoDelay`.
    pub rate_limit_mode: RateLimitMode,
    /// Key balancing strategy. Default: `RoundRobin`.
    pub api_key_balancing: ApiKeyBalancing,
    /// Optional comment appended to all requests.
    pub comment: Option<String>,
    /// Custom HTTP headers added to every request, in insertion order.
    pub headers: Vec<(String, String)>,
    /// Base URL of the remote service.
    pub base_url: String,
    /// Enable verbose logging in the embedding application.
    pub verbose: bool,
}

impl TornClientConfig {
    /// The base URL used when none is configured.
    pub open spec fn spec_default_base_url() -> Seq<char> {
        "https://api.torn.com/v2"@
    }
}

impl Default for TornClientConfig {
    fn default() -> (r: Self)
        ensures
            r.api_keys@ == Seq::<String>::empty(),
            r.rate_limit_mode == RateLimitMode::AutoDelay,
            r.api_key_balancing == ApiKeyBalancing::RoundRobin,
            r.comment is None,
            r.headers@ == Seq::<(String, String)>::empty(),
            r.base_url@ == TornClientConfig::spec_default_base_url(),
            !r.verbose,
    {
        TornClientConfig {
            api_keys: Vec::new(),
            rate_limit_mode: RateLimitMode::AutoDelay,
            api_key_balancing: ApiKeyBalancing::RoundRobin,
            comment: None,
            headers: Vec::new(),
            base_url: String::from_str("https://api.torn.com/v2"),
            verbose: false,
        }
    }
}

} // verus!
