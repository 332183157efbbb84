use kce::mcp::{retrieve_top_k, route, McpRoute, INTERNAL_ERROR, METHOD_NOT_FOUND, PARSE_ERROR};

#[test]
fn routes() {
    assert_eq!(route("initialize", ""), McpRoute::Initialize);
    assert_eq!(route("tools/list", ""), McpRoute::ListTools);
    assert_eq!(route("tools/call", "kce_retrieve"), McpRoute::CallRetrieve);
    assert_eq!(route("tools/call", "kce_sinkhorn"), McpRoute::CallSinkhorn);
    assert_eq!(route("tools/call", "other"), McpRoute::MethodNotFound);
    assert_eq!(route("tools/call", ""), McpRoute::MethodNotFound);
    assert_eq!(route("shutdown", "kce_retrieve"), McpRoute::MethodNotFound);
}

#[test]
fn codes_and_defaults() {
    assert_eq!(PARSE_ERROR, -32700);
    assert_eq!(METHOD_NOT_FOUND, -32601);
    assert_eq!(INTERNAL_ERROR, -32603);
    assert_eq!(retrieve_top_k(None), 5);
    assert_eq!(retrieve_top_k(Some(12)), 12);
}
