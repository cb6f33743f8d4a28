//! Names of the tool servers that the gateway hosts itself.
use vstd::prelude::*;

verus! {

/// Why a tool server could not be used.
#[derive(Debug, Clone, PartialEq, Eq)]
pub enum McpServerError {
    InvalidServerName(String),
    ClientStartError(String),
    NoTextInToolResult(String),
}

/// Accepts the names of the hosted web-search server, `websearch` and
/// `Web Search`; any other name is invalid.
pub fn validate_server_name(name: &str) -> (r: Result<(), McpServerError>)
    ensures
        r is Ok <==> (name@ == "websearch"@ || name@ == "Web Search"@),
        r is Err ==> r->Err_0 is InvalidServerName && r->Err_0->InvalidServerName_0@ == name@,
{
    let n = String::from_str(name);
    if n == String::from_str("websearch") || n == String::from_str("Web Search") {
        Ok(())
    } else {
        Err(McpServerError::InvalidServerName(n))
    }
}

} // verus!
