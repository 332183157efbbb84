//! The Model Context Protocol server's request routing: which JSON-RPC
//! method or tool a request names, and the error each unknown one gets.
//! Reading lines, parsing JSON and running the tools happen outside the
//! library.
use vstd::prelude::*;
use vstd::string::*;

verus! {

/// JSON-RPC error code for a request that is not valid JSON.
pub const PARSE_ERROR: i32 = -32700;

/// JSON-RPC error code for an unknown method or tool.
pub const METHOD_NOT_FOUND: i32 = -32601;

/// JSON-RPC error code for a tool that failed.
pub const INTERNAL_ERROR: i32 = -32603;

/// Where a request goes.
#[derive(Debug, Clone, Copy, PartialEq, Eq, Structural)]
pub enum McpRoute {
    /// `initialize`: the server's protocol version and capabilities.
    Initialize,
    /// `tools/list`: the tool descriptions.
    ListTools,
    /// `tools/call` of `kce_retrieve`.
    CallRetrieve,
    /// `tools/call` of `kce_sinkhorn`.
    CallSinkhorn,
    /// An unknown method, or an unknown tool.
    MethodNotFound,
}

/// The route of a request with this method and, for `tools/call`, this
/// tool name (empty when the request names none).
pub open spec fn spec_route(method: Seq<char>, tool: Seq<char>) -> McpRoute {
    if method == "initialize"@ {
        McpRoute::Initialize
    } else if method == "tools/list"@ {
        McpRoute::ListTools
    } else if method == "tools/call"@ {
        if tool == "kce_retrieve"@ {
            McpRoute::CallRetrieve
        } else if tool == "kce_sinkhorn"@ {
            McpRoute::CallSinkhorn
        } else {
            McpRoute::MethodNotFound
        }
    } else {
        McpRoute::MethodNotFound
    }
}

/// Route a request.
pub fn route(method: &str, tool: &str) -> (r: McpRoute)
    ensures
        r == spec_route(method@, tool@),
{
    let m = method.to_owned();
    if m == String::from_str("initialize") {
        McpRoute::Initialize
    } else if m == String::from_str("tools/list") {
        McpRoute::ListTools
    } else if m == String::from_str("tools/call") {
        let t = tool.to_owned();
        if t == String::from_str("kce_retrieve") {
            McpRoute::CallRetrieve
        } else if t == String::from_str("kce_sinkhorn") {
            McpRoute::CallSinkhorn
        } else {
            McpRoute::MethodNotFound
        }
    } else {
        McpRoute::MethodNotFound
    }
}

/// Default number of results of `kce_retrieve` when the call gives none.
pub const DEFAULT_TOP_K: u64 = 5;

/// The `top_k` of a `kce_retrieve` call: the given count, or 5.
pub fn retrieve_top_k(given: Option<u64>) -> (r: u64)
    ensures
        r == match given {
            Some(k) => k,
            None => DEFAULT_TOP_K,
        },
{
    match given {
        Some(k) => k,
        None => DEFAULT_TOP_K,
    }
}

} // verus!
