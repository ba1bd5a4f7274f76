use vigia::mcp::{Handled, Json, Server};

fn server() -> Server {
    Server::new("0.3.1".to_owned())
}

/// The reply line read back as a value, to look into it by key.
fn reply(h: Handled) -> serde_json::Value {
    match h {
        Handled::Reply(line) => {
            assert!(!line.contains('\n'), "one line: {line}");
            serde_json::from_str(&line).expect("a reply is JSON")
        }
        Handled::Silent => panic!("expected a reply, got nothing"),
        Handled::Ask { method, .. } => panic!("expected a reply, got a question for the store: {method}"),
    }
}

fn code(v: &serde_json::Value) -> i64 {
    v["error"]["code"].as_i64().expect("an error code")
}

fn message(v: &serde_json::Value) -> String {
    v["error"]["message"].as_str().expect("an error message").to_owned()
}

#[test]
fn a_blank_line_is_answered_with_nothing() {
    let mut s = server();
    assert!(matches!(s.handle(""), Handled::Silent));
    assert!(matches!(s.handle("  \t "), Handled::Silent));
    assert!(!s.initialised());
}

#[test]
fn a_line_that_is_not_json_gets_a_parse_error_with_no_id() {
    let mut s = server();
    let v = reply(s.handle("not json"));
    assert_eq!(code(&v), -32700);
    assert!(v["id"].is_null());
    assert_eq!(v["jsonrpc"], "2.0");
    assert!(message(&v).starts_with("parse error: "), "{}", message(&v));
    assert!(message(&v).len() > "parse error: ".len());
}

#[test]
fn a_batch_is_an_invalid_request() {
    let mut s = server();
    let v = reply(s.handle("[{\"jsonrpc\":\"2.0\",\"id\":1,\"method\":\"ping\"}]"));
    assert_eq!(code(&v), -32600);
    assert!(v["id"].is_null());
    assert_eq!(message(&v), "invalid request: not a single message");
    let v = reply(s.handle("3"));
    assert_eq!(code(&v), -32600);
}

#[test]
fn responses_and_notifications_are_answered_with_nothing() {
    let mut s = server();
    assert!(matches!(s.handle("{\"jsonrpc\":\"2.0\",\"id\":4,\"result\":{}}"), Handled::Silent));
    assert!(matches!(
        s.handle("{\"jsonrpc\":\"2.0\",\"id\":4,\"error\":{\"code\":1,\"message\":\"no\"}}"),
        Handled::Silent
    ));
    assert!(matches!(
        s.handle("{\"jsonrpc\":\"2.0\",\"method\":\"notifications/initialized\"}"),
        Handled::Silent
    ));
}

#[test]
fn a_request_with_no_method_is_refused_under_its_id() {
    let mut s = server();
    let v = reply(s.handle("{\"jsonrpc\":\"2.0\",\"id\":7}"));
    assert_eq!(code(&v), -32600);
    assert_eq!(v["id"], 7);
    assert_eq!(message(&v), "invalid request: no method");
    let v = reply(s.handle("{\"jsonrpc\":\"2.0\",\"id\":\"x\",\"method\":3}"));
    assert_eq!(message(&v), "invalid request: no method");
    assert_eq!(v["id"], "x");
}

#[test]
fn a_ping_is_answered_with_an_empty_object() {
    let mut s = server();
    let v = reply(s.handle("{\"jsonrpc\":\"2.0\",\"id\":2,\"method\":\"ping\"}"));
    assert_eq!(v["id"], 2);
    assert_eq!(v["result"], serde_json::Value::Object(serde_json::Map::new()));
    assert!(v.get("error").is_none());
}

#[test]
fn the_handshake_begins_the_session_and_agrees_a_revision() {
    let mut s = server();
    let v = reply(s.handle(
        "{\"jsonrpc\":\"2.0\",\"id\":1,\"method\":\"initialize\",\"params\":{\"protocolVersion\":\"2025-03-26\"}}",
    ));
    assert!(s.initialised());
    assert_eq!(s.version, "0.3.1");
    assert_eq!(v["result"]["protocolVersion"], "2025-03-26");
    assert_eq!(v["result"]["serverInfo"]["name"], "vigia");
    assert_eq!(v["result"]["serverInfo"]["version"], "0.3.1");
    assert_eq!(v["result"]["capabilities"]["resources"]["listChanged"], true);
    assert!(v["result"]["capabilities"]["tools"].is_object());
    assert!(v["result"]["instructions"].as_str().unwrap().starts_with("vigia is the live diff monitor"));

    let mut s = server();
    let v = reply(s.handle(
        "{\"jsonrpc\":\"2.0\",\"id\":1,\"method\":\"initialize\",\"params\":{\"protocolVersion\":\"1999-01-01\"}}",
    ));
    assert_eq!(v["result"]["protocolVersion"], "2025-11-25");
    let v = reply(s.handle("{\"jsonrpc\":\"2.0\",\"id\":1,\"method\":\"initialize\"}"));
    assert_eq!(v["result"]["protocolVersion"], "2025-11-25");
}

#[test]
fn the_listings_name_three_tools_and_one_resource() {
    let mut s = server();
    let v = reply(s.handle("{\"jsonrpc\":\"2.0\",\"id\":3,\"method\":\"tools/list\"}"));
    let tools = v["result"]["tools"].as_array().expect("a list of tools");
    let names: Vec<&str> = tools.iter().map(|t| t["name"].as_str().unwrap()).collect();
    assert_eq!(names, vec!["notes", "resolve", "reply"]);
    assert_eq!(tools[1]["inputSchema"]["required"], serde_json::Value::Array(vec!["id".into(), "note".into()]));
    assert_eq!(tools[0]["inputSchema"]["additionalProperties"], false);
    assert!(tools[0]["inputSchema"].get("required").is_none());

    let v = reply(s.handle("{\"jsonrpc\":\"2.0\",\"id\":4,\"method\":\"resources/list\"}"));
    let resources = v["result"]["resources"].as_array().expect("a list of resources");
    assert_eq!(resources.len(), 1);
    assert_eq!(resources[0]["uri"], "vigia://notes");
    assert_eq!(resources[0]["mimeType"], "application/json");
    assert!(!s.initialised());
}

#[test]
fn a_call_of_a_tool_this_server_has_goes_to_the_store() {
    let mut s = server();
    let h = s.handle(
        "{\"jsonrpc\":\"2.0\",\"id\":9,\"method\":\"tools/call\",\"params\":{\"name\":\"resolve\",\"arguments\":{\"id\":\"a\"}}}",
    );
    match h {
        Handled::Ask { id, method, params } => {
            assert!(matches!(id, Json::Number(ref n) if n == "9"));
            assert_eq!(method, "tools/call");
            match params {
                Json::Object(fields) => {
                    assert_eq!(fields.len(), 2);
                    assert!(fields.iter().any(|(k, v)| k == "name" && matches!(v, Json::Text(t) if t == "resolve")));
                }
                other => panic!("params should be an object: {other:?}"),
            }
        }
        _ => panic!("expected a question for the store"),
    }
}

#[test]
fn a_call_with_no_tool_or_a_tool_this_server_lacks_is_refused() {
    let mut s = server();
    let v = reply(s.handle("{\"jsonrpc\":\"2.0\",\"id\":5,\"method\":\"tools/call\",\"params\":{}}"));
    assert_eq!(code(&v), -32602);
    assert_eq!(message(&v), "tools/call needs a tool name");
    let v = reply(s.handle(
        "{\"jsonrpc\":\"2.0\",\"id\":6,\"method\":\"tools/call\",\"params\":{\"name\":\"frob\"}}",
    ));
    assert_eq!(code(&v), -32602);
    assert_eq!(message(&v), "unknown tool: frob; the tools are notes, resolve and reply");
    assert_eq!(v["id"], 6);
}

#[test]
fn a_read_of_the_one_resource_goes_to_the_store_and_of_another_is_refused() {
    let mut s = server();
    let h = s.handle(
        "{\"jsonrpc\":\"2.0\",\"id\":8,\"method\":\"resources/read\",\"params\":{\"uri\":\"vigia://notes\"}}",
    );
    assert!(matches!(h, Handled::Ask { ref method, .. } if method == "resources/read"));
    let v = reply(s.handle(
        "{\"jsonrpc\":\"2.0\",\"id\":8,\"method\":\"resources/read\",\"params\":{\"uri\":\"vigia://other\"}}",
    ));
    assert_eq!(code(&v), -32002);
    assert_eq!(message(&v), "resource not found: vigia://other");
    assert_eq!(v["error"]["data"]["uri"], "vigia://other");
    let v = reply(s.handle("{\"jsonrpc\":\"2.0\",\"id\":8,\"method\":\"resources/read\"}"));
    assert_eq!(message(&v), "resource not found: ");
    assert!(v["error"]["data"]["uri"].is_null());
}

#[test]
fn a_method_this_server_lacks_is_refused_by_name() {
    let mut s = server();
    let v = reply(s.handle("{\"jsonrpc\":\"2.0\",\"id\":10,\"method\":\"frob\"}"));
    assert_eq!(code(&v), -32601);
    assert_eq!(message(&v), "method not found: frob");
    assert_eq!(v["id"], 10);
    assert!(!s.initialised());
}

#[test]
fn questions_for_a_store_that_is_not_there_are_answered_as_refused() {
    let v: serde_json::Value =
        serde_json::from_str(&vigia::mcp::unserved(Json::Number("3".to_owned()), "tools/call", "no store")).unwrap();
    assert_eq!(v["id"], 3);
    assert_eq!(v["result"]["isError"], true);
    assert_eq!(v["result"]["content"][0]["type"], "text");
    assert_eq!(v["result"]["content"][0]["text"], "no store");
    let v: serde_json::Value =
        serde_json::from_str(&vigia::mcp::unserved(Json::Text("r".to_owned()), "resources/read", "no store")).unwrap();
    assert_eq!(v["id"], "r");
    assert_eq!(v["error"]["code"], -32603);
    assert_eq!(v["error"]["message"], "no store");
}

#[test]
fn a_line_that_is_not_text_gets_a_parse_error() {
    let v: serde_json::Value = serde_json::from_str(&vigia::mcp::unreadable("stream did not contain valid UTF-8")).unwrap();
    assert_eq!(v["error"]["code"], -32700);
    assert_eq!(v["error"]["message"], "parse error: stream did not contain valid UTF-8");
    assert!(v["id"].is_null());
}

#[test]
fn a_notification_never_changes_the_session() {
    let mut s = server();
    assert!(matches!(s.handle("{\"jsonrpc\":\"2.0\",\"method\":\"initialize\"}"), Handled::Silent));
    assert!(!s.initialised());
    let _ = s.handle("{\"jsonrpc\":\"2.0\",\"id\":1,\"method\":\"initialize\"}");
    assert!(s.initialised());
    let _ = s.handle("{\"jsonrpc\":\"2.0\",\"id\":2,\"method\":\"ping\"}");
    let _ = s.handle("garbage");
    assert!(s.initialised());
}
