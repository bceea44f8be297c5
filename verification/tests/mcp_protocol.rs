//! MCP protocol tests: discovery, legacy initialization, message validation, tool discovery
//! and the answers of the project tools.

use codecks_mcp::domain::Project;
use codecks_mcp::error::ApplicationError;
use codecks_mcp::json::JsonValue;
use codecks_mcp::mcp::{
    server_capabilities, server_info, McpServer, ProtocolEra, Reply, ToolRequest,
    CURRENT_PROTOCOL_VERSION, DISCOVERY_TTL_MILLISECONDS,
};
use serde_json::Value;

fn to_json(value: &Value) -> JsonValue {
    match value {
        Value::Null => JsonValue::Null,
        Value::Bool(b) => JsonValue::Bool(*b),
        Value::Number(n) => JsonValue::Number(n.to_string()),
        Value::String(s) => JsonValue::Str(s.clone()),
        Value::Array(items) => JsonValue::Array(items.iter().map(to_json).collect()),
        Value::Object(map) => JsonValue::Object(
            map.iter()
                .map(|(key, value)| (key.clone(), to_json(value)))
                .collect(),
        ),
    }
}

fn from_json(value: &JsonValue) -> Value {
    serde_json::from_str(&value.to_text()).expect("the library should write valid JSON")
}

fn value(text: &str) -> Value {
    serde_json::from_str(text).expect("the test document should be JSON")
}

fn modern_params() -> Value {
    value(&format!(
        r#"{{"_meta": {{
            "io.modelcontextprotocol/protocolVersion": "{CURRENT_PROTOCOL_VERSION}",
            "io.modelcontextprotocol/clientCapabilities": {{}},
            "io.modelcontextprotocol/clientInfo": {{"name": "mcp-tests", "version": "1.0.0"}}
        }}}}"#
    ))
}

fn request(id: i64, method: &str, params: Value) -> Value {
    let mut message = serde_json::Map::new();
    message.insert("jsonrpc".to_owned(), Value::String("2.0".to_owned()));
    message.insert("id".to_owned(), Value::from(id));
    message.insert("method".to_owned(), Value::String(method.to_owned()));
    message.insert("params".to_owned(), params);
    Value::Object(message)
}

fn tool_params(name: &str, arguments: Value) -> Value {
    let mut params = modern_params();
    let object = params
        .as_object_mut()
        .expect("modern params should be an object");
    object.insert("name".to_owned(), Value::String(name.to_owned()));
    object.insert("arguments".to_owned(), arguments);
    params
}

fn respond(mcp: &mut McpServer, message: &Value) -> Value {
    match mcp.handle_message(&to_json(message)) {
        Reply::Respond(response) => from_json(&response),
        other => panic!("a response was expected, not {other:?}"),
    }
}

fn call_tool(
    mcp: &mut McpServer,
    message: &Value,
    projects: Result<Vec<Project>, ApplicationError>,
) -> Value {
    match mcp.handle_message(&to_json(message)) {
        Reply::CallTool(call) => from_json(&McpServer::complete_tool_call(&call, projects)),
        other => panic!("a tool call was expected, not {other:?}"),
    }
}

fn one_project() -> Vec<Project> {
    vec![Project::new("project-id".to_owned(), "Project Name".to_owned())]
}

#[test]
fn supports_current_discovery_and_legacy_initialization() {
    let mut mcp = McpServer::new();

    let discovery = respond(&mut mcp, &request(1, "server/discover", modern_params()));
    let initialization = respond(
        &mut mcp,
        &request(
            2,
            "initialize",
            value(
                r#"{"protocolVersion": "2025-06-18", "capabilities": {},
                    "clientInfo": {"name": "legacy-tests", "version": "1.0.0"}}"#,
            ),
        ),
    );

    assert_eq!(
        discovery["result"]["supportedVersions"],
        Value::Array(vec![Value::String(CURRENT_PROTOCOL_VERSION.to_owned())])
    );
    assert_eq!(discovery["result"]["resultType"], "complete");
    assert_eq!(
        discovery["result"]["capabilities"],
        from_json(&server_capabilities())
    );
    assert_eq!(
        discovery["result"]["_meta"]["io.modelcontextprotocol/serverInfo"],
        from_json(&server_info())
    );
    assert_eq!(discovery["result"]["ttlMs"], DISCOVERY_TTL_MILLISECONDS);
    assert_eq!(discovery["result"]["cacheScope"], "public");
    assert!(discovery["result"].get("protocolVersion").is_none());
    assert!(discovery["result"].get("serverInfo").is_none());
    assert_eq!(initialization["result"]["protocolVersion"], "2025-06-18");
    assert!(initialization["result"].get("resultType").is_none());
}

#[test]
fn returns_the_current_unsupported_protocol_version_error_contract() {
    let mut mcp = McpServer::new();
    let mut params = modern_params();
    params["_meta"]["io.modelcontextprotocol/protocolVersion"] =
        Value::String("1900-01-01".to_owned());

    let response = respond(&mut mcp, &request(1, "unknown/method", params));

    assert_eq!(
        response,
        value(&format!(
            r#"{{"jsonrpc": "2.0", "id": 1, "error": {{
                "code": -32022,
                "message": "Unsupported protocol version.",
                "data": {{"supported": ["{CURRENT_PROTOCOL_VERSION}"], "requested": "1900-01-01"}}
            }}}}"#
        ))
    );

    let response = respond(&mut mcp, &request(2, "unknown/method", modern_params()));

    assert_eq!(
        response,
        value(r#"{"jsonrpc": "2.0", "id": 2, "error": {"code": -32601, "message": "Method not found."}}"#)
    );
}

#[test]
fn rejects_malformed_idless_messages_but_ignores_valid_notifications() {
    let mut mcp = McpServer::new();

    for (message, expected_message) in [
        (r#"{"jsonrpc": "2.0"}"#, "JSON-RPC requests require a method."),
        (
            r#"{"jsonrpc": "1.0", "method": "ping"}"#,
            "The jsonrpc field must be \"2.0\".",
        ),
        (
            r#"{"jsonrpc": "2.0", "method": 42}"#,
            "JSON-RPC requests require a method.",
        ),
    ] {
        let response = respond(&mut mcp, &value(message));
        assert_eq!(response["id"], Value::Null);
        assert_eq!(response["error"]["code"], -32600);
        assert_eq!(response["error"]["message"], expected_message);
    }

    assert!(matches!(
        mcp.handle_message(&to_json(&value(
            r#"{"jsonrpc": "2.0", "method": "notifications/initialized"}"#
        ))),
        Reply::Silent
    ));
}

#[test]
fn rejects_invalid_request_ids_without_dispatching_tools_or_stalling_eof() {
    let mut mcp = McpServer::new();
    let call_params = tool_params("list_projects", value("{}"));

    for invalid_id in ["null", r#"{"bad": true}"#, "[1]", "true"] {
        let mut message = request(1, "tools/call", call_params.clone());
        message["id"] = value(invalid_id);

        let response = respond(&mut mcp, &message);
        assert_eq!(
            response,
            value(
                r#"{"jsonrpc": "2.0", "id": null, "error": {
                    "code": -32600,
                    "message": "JSON-RPC request IDs must be strings or numbers."
                }}"#
            )
        );
    }

    let ping = respond(&mut mcp, &request(3, "ping", modern_params()));
    assert_eq!(ping["id"], 3);
}

#[test]
fn exposes_protocol_conformant_current_and_legacy_tool_definitions() {
    let mut mcp = McpServer::new();

    let current = respond(&mut mcp, &request(1, "tools/list", modern_params()));
    respond(
        &mut mcp,
        &request(
            2,
            "initialize",
            value(
                r#"{"protocolVersion": "2025-11-25", "capabilities": {},
                    "clientInfo": {"name": "legacy-tool-tests", "version": "1.0.0"}}"#,
            ),
        ),
    );
    let legacy = respond(
        &mut mcp,
        &request(
            3,
            "tools/list",
            value(r#"{"_meta": {"progressToken": "legacy-tool-tests"}}"#),
        ),
    );

    assert_eq!(current["result"]["ttlMs"], DISCOVERY_TTL_MILLISECONDS);
    assert_eq!(current["result"]["cacheScope"], "public");
    assert_eq!(current["result"]["resultType"], "complete");
    assert!(legacy["result"].get("ttlMs").is_none());
    assert!(legacy["result"].get("cacheScope").is_none());
    assert!(legacy["result"].get("resultType").is_none());

    for response in [&current, &legacy] {
        let tools = response["result"]["tools"]
            .as_array()
            .expect("the tool list should be an array");
        let names = tools
            .iter()
            .map(|tool| tool["name"].as_str().expect("each tool should have a name"))
            .collect::<Vec<_>>();
        assert_eq!(names, ["list_projects", "get_project"]);
        assert!(tools
            .iter()
            .all(|tool| tool["outputSchema"]["type"] == "object"));
    }
}

#[test]
fn lists_projects_with_matching_text_and_structured_content() {
    let mut mcp = McpServer::new();
    let params = tool_params("list_projects", value("{}"));

    let response = call_tool(&mut mcp, &request(1, "tools/call", params), Ok(one_project()));
    let result = &response["result"];
    let text: Value = serde_json::from_str(
        result["content"][0]["text"]
            .as_str()
            .expect("the text result should be present"),
    )
    .expect("the text result should contain JSON");

    assert_eq!(result["isError"], false);
    assert_eq!(result["structuredContent"], text);
    assert_eq!(
        result["structuredContent"]["projects"][0],
        value(r#"{"uuid": "project-id", "name": "Project Name"}"#)
    );
}

#[test]
fn gets_the_sole_project_without_an_explicit_selector() {
    let mut mcp = McpServer::new();
    let params = tool_params("get_project", value("{}"));

    let response = call_tool(&mut mcp, &request(1, "tools/call", params), Ok(one_project()));

    assert_eq!(
        response["result"]["structuredContent"]["project"],
        value(r#"{"uuid": "project-id", "name": "Project Name"}"#)
    );
    assert_eq!(response["result"]["isError"], false);
}

#[test]
fn returns_a_typed_tool_error_when_automatic_resolution_fails() {
    let mut mcp = McpServer::new();
    let params = tool_params("get_project", value("{}"));

    let response = call_tool(&mut mcp, &request(1, "tools/call", params), Ok(Vec::new()));

    assert_eq!(response["result"]["isError"], true);
    assert_eq!(
        response["result"]["structuredContent"]["error"]["code"],
        "project_not_found"
    );
    assert_eq!(
        response["result"]["structuredContent"]["error"]["message"],
        ApplicationError::ProjectNotFound.message()
    );
}

#[test]
fn a_codecks_failure_becomes_a_flagged_tool_result() {
    let mut mcp = McpServer::new();
    let params = tool_params("list_projects", value("{}"));

    let response = call_tool(
        &mut mcp,
        &request(9, "tools/call", params),
        Err(ApplicationError::Timeout),
    );

    assert_eq!(response["id"], 9);
    assert_eq!(response["result"]["isError"], true);
    assert_eq!(
        response["result"]["structuredContent"],
        value(r#"{"error": {"code": "timeout", "message": "The Codecks request timed out."}}"#)
    );
    assert_eq!(
        response["result"]["content"][0]["text"],
        r#"{"error":{"code":"timeout","message":"The Codecks request timed out."}}"#
    );
}

#[test]
fn get_project_resolves_an_explicit_selector() {
    let mut mcp = McpServer::new();
    let projects = vec![
        Project::new("project-a".to_owned(), "Project A".to_owned()),
        Project::new("project-b".to_owned(), "Project B".to_owned()),
    ];
    let params = tool_params("get_project", value(r#"{"project": "Project B"}"#));

    let response = call_tool(&mut mcp, &request(4, "tools/call", params), Ok(projects));

    assert_eq!(
        response["result"]["structuredContent"]["project"],
        value(r#"{"uuid": "project-b", "name": "Project B"}"#)
    );
    assert_eq!(response["result"]["resultType"], "complete");
}

#[test]
fn tool_calls_are_validated_before_any_project_is_fetched() {
    let mut mcp = McpServer::new();
    let cases = [
        (tool_params("unknown_tool", value("{}")), "Unknown tool name."),
        (
            tool_params("list_projects", value(r#"{"extra": 1}"#)),
            "The request contains an unsupported field.",
        ),
        (
            tool_params("get_project", value(r#"{"project": 5}"#)),
            "The project selector must be a string.",
        ),
        (
            tool_params("get_project", value("[]")),
            "arguments must be an object.",
        ),
    ];
    for (params, message) in cases {
        let response = respond(&mut mcp, &request(5, "tools/call", params));
        assert_eq!(response["id"], 5);
        assert_eq!(response["error"]["code"], -32602);
        assert_eq!(response["error"]["message"], message);
    }
}

#[test]
fn a_valid_tool_call_is_handed_back_with_its_request() {
    let mut mcp = McpServer::new();
    let params = tool_params("get_project", value(r#"{"project": "x"}"#));

    match mcp.handle_message(&to_json(&request(11, "tools/call", params))) {
        Reply::CallTool(call) => {
            assert_eq!(from_json(&call.id), Value::from(11));
            assert_eq!(call.era, ProtocolEra::Current);
            assert!(matches!(call.request, ToolRequest::GetProject(Some(ref s)) if s == "x"));
        }
        other => panic!("a tool call was expected, not {other:?}"),
    }
}

#[test]
fn requests_before_initialization_need_current_metadata() {
    let mut mcp = McpServer::new();

    let response = respond(&mut mcp, &request(1, "ping", value("{}")));

    assert_eq!(response["error"]["code"], -32002);
    assert_eq!(
        response["error"]["message"],
        "The server has not been initialized."
    );

    let response = respond(
        &mut mcp,
        &request(
            2,
            "initialize",
            value(r#"{"protocolVersion": "1999-01-01", "capabilities": {}, "clientInfo": {}}"#),
        ),
    );
    assert_eq!(response["result"]["protocolVersion"], "2025-11-25");
    assert_eq!(response["result"]["serverInfo"], from_json(&server_info()));

    let response = respond(&mut mcp, &request(3, "ping", value("{}")));
    assert_eq!(response, value(r#"{"jsonrpc": "2.0", "id": 3, "result": {}}"#));
}

#[test]
fn messages_that_are_not_objects_are_invalid_requests() {
    let mut mcp = McpServer::new();

    let response = respond(&mut mcp, &value("[1, 2]"));

    assert_eq!(
        response,
        value(
            r#"{"jsonrpc": "2.0", "id": null, "error": {
                "code": -32600, "message": "JSON-RPC messages must be objects."
            }}"#
        )
    );
}

#[test]
fn string_request_ids_are_echoed() {
    let mut mcp = McpServer::new();

    let response = respond(&mut mcp, &{
        let mut message = request(0, "ping", modern_params());
        message["id"] = Value::String("request-7".to_owned());
        message
    });

    assert_eq!(response["id"], "request-7");
    assert_eq!(response["result"]["resultType"], "complete");
}

#[test]
fn a_failed_initialization_does_not_undo_an_earlier_one() {
    let mut mcp = McpServer::new();
    let initialized = respond(
        &mut mcp,
        &request(
            1,
            "initialize",
            value(r#"{"protocolVersion": "2024-11-05", "capabilities": {}, "clientInfo": {}}"#),
        ),
    );
    assert_eq!(initialized["result"]["protocolVersion"], "2024-11-05");

    let refused = respond(
        &mut mcp,
        &request(2, "initialize", value(r#"{"protocolVersion": "2024-11-05"}"#)),
    );
    assert_eq!(refused["error"]["code"], -32602);
    assert_eq!(
        refused["error"]["message"],
        "A required object field is missing or invalid."
    );

    let ping = respond(&mut mcp, &request(3, "ping", value("{}")));
    assert_eq!(ping, value(r#"{"jsonrpc": "2.0", "id": 3, "result": {}}"#));
}

#[test]
fn notifications_change_nothing_and_get_no_reply() {
    let mut mcp = McpServer::new();

    assert!(matches!(
        mcp.handle_message(&to_json(&value(
            r#"{"jsonrpc": "2.0", "method": "initialize",
                "params": {"protocolVersion": "2025-06-18", "capabilities": {}, "clientInfo": {}}}"#
        ))),
        Reply::Silent
    ));

    let response = respond(&mut mcp, &request(1, "ping", value("{}")));
    assert_eq!(response["error"]["code"], -32002);
}
