//! Settings and payloads of the gateway's HTTP surface.
use vstd::prelude::*;

verus! {

/// Which origins the HTTP server accepts.
#[derive(Debug, Clone, PartialEq, Eq)]
pub enum CorsOptions {
    /// Any origin.
    Permissive,
    /// These origins, with this preflight cache time in seconds.
    Custom(Vec<String>, usize),
}

/// A login session.
#[derive(Debug, Clone, PartialEq, Eq)]
pub struct SessionResponse {
    pub session_id: String,
}

/// The key that a login yields.
#[derive(Debug, Clone, PartialEq, Eq)]
pub struct Credentials {
    pub api_key: String,
}

} // verus!
