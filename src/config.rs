use vstd::prelude::*;

verus! {

/// The region used when none is configured.
pub const DEFAULT_REGION: &'static str = "na1";

/// Settings for talking to the match-data API.
#[derive(Debug, Clone)]
pub struct Config {
    pub api_key: String,
    pub region: String,
}

} // verus!
