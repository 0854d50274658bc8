//! Cross-origin headers added to responses.
use vstd::prelude::*;
use crate::config::Config;

verus! {

pub const ALLOW_ORIGIN: &'static str = "Access-Control-Allow-Origin";
pub const ALLOW_METHODS: &'static str = "Access-Control-Allow-Methods";
pub const ALLOW_HEADERS: &'static str = "Access-Control-Allow-Headers";
pub const ALLOW_CREDENTIALS: &'static str = "Access-Control-Allow-Credentials";
pub const ALLOWED_METHODS: &'static str = "POST, GET, OPTIONS";
pub const ALLOWED_HEADERS: &'static str = "Content-Type";
pub const CREDENTIALS_ALLOWED: &'static str = "true";

/// Adds the cross-origin headers to preflight requests and JSON responses.
pub struct CorsMiddleware;

impl CorsMiddleware {
    /// The headers, as (name, value) pairs, that a response gets: the four
    /// cross-origin headers when the request is a preflight (`OPTIONS`) or
    /// the response is JSON, and none otherwise.
    pub fn response_headers(&self, is_preflight: bool, is_json: bool, config: &Config) -> (r: Vec<
        (String, String),
    >)
        ensures
            !(is_preflight || is_json) ==> r@.len() == 0,
            (is_preflight || is_json) ==> {
                &&& r@.len() == 4
                &&& r@[0].0@ == ALLOW_ORIGIN@
                &&& r@[0].1@ == config.access_control_allow_origin@
                &&& r@[1].0@ == ALLOW_METHODS@
                &&& r@[1].1@ == ALLOWED_METHODS@
                &&& r@[2].0@ == ALLOW_HEADERS@
                &&& r@[2].1@ == ALLOWED_HEADERS@
                &&& r@[3].0@ == ALLOW_CREDENTIALS@
                &&& r@[3].1@ == CREDENTIALS_ALLOWED@
            },
    {
        let mut headers: Vec<(String, String)> = Vec::new();
        if is_preflight || is_json {
            headers.push((ALLOW_ORIGIN.to_owned(), config.access_control_allow_origin.clone()));
            headers.push((ALLOW_METHODS.to_owned(), ALLOWED_METHODS.to_owned()));
            headers.push((ALLOW_HEADERS.to_owned(), ALLOWED_HEADERS.to_owned()));
            headers.push((ALLOW_CREDENTIALS.to_owned(), CREDENTIALS_ALLOWED.to_owned()));
        }
        headers
    }

    /// Whether the response body is replaced by an empty plain-text body:
    /// only for a preflight request.
    pub fn replaces_body(&self, is_preflight: bool) -> (r: bool)
        ensures
            r == is_preflight,
    {
        is_preflight
    }
}

} // verus!
