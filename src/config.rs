//! Service configuration: the origin that cross-origin responses allow.
use vstd::prelude::*;

verus! {

/// The origin allowed when the configuration names none.
pub const DEFAULT_ALLOW_ORIGIN: &'static str = "http://localhost:3000";

#[derive(Debug)]
pub struct Config {
    pub access_control_allow_origin: String,
}

/// Builds the service configuration when the server starts.
pub struct ConfigMiddleware;

impl ConfigMiddleware {
    /// The configuration for the configured origin, or for the default
    /// origin when the setting is absent.
    pub fn config(&self, access_control_allow_origin: Option<String>) -> (r: Config)
        ensures
            r.access_control_allow_origin@ == match access_control_allow_origin {
                Some(s) => s@,
                None => DEFAULT_ALLOW_ORIGIN@,
            },
    {
        match access_control_allow_origin {
            Some(s) => Config { access_control_allow_origin: s },
            None => Config { access_control_allow_origin: DEFAULT_ALLOW_ORIGIN.to_owned() },
        }
    }
}

} // verus!
