//! MCP protocol behavior: JSON-RPC message validation, discovery, legacy initialization,
//! tool discovery and the decisions of a tool call.
//!
//! A message is decided here; a tool call that needs the Codecks project list is handed back
//! as a `Reply::CallTool`, and its response is built by `McpServer::complete_tool_call` once
//! the caller has fetched the projects.
use vstd::prelude::*;
use crate::domain::{Project, ProjectView};
use crate::error::{error_code, error_message, ApplicationError};
use crate::json::{
    integer_text, json_of, serialized, lemma_insert_then_lookup, lemma_object_reads_last_write,
    last_stored, obj, opt_json, item_views, Json, JsonObject, JsonValue,
};
use crate::project_resolver::{
    first_uuid_match, has_name, has_uuid, only_name_match, project_views, resolution, resolve_project,
};
use crate::text::str_equal;
use vstd::std_specs::convert::FromSpec;

verus! {

/// The latest MCP protocol revision implemented by the server.
pub const CURRENT_PROTOCOL_VERSION: &'static str = "2026-07-28";

/// The legacy revision answered when a client asks for one this server does not know.
pub const DEFAULT_LEGACY_PROTOCOL_VERSION: &'static str = "2025-11-25";

/// The server's name in `serverInfo`.
pub const SERVER_NAME: &'static str = "codecks-mcp";

/// The server's version in `serverInfo`.
pub const SERVER_VERSION: &'static str = "0.1.0";

/// How long, in milliseconds, clients may cache discovery results.
pub const DISCOVERY_TTL_MILLISECONDS: u64 = 3_600_000;

pub open spec fn current_version() -> Seq<char> {
    "2026-07-28"@
}

/// The legacy protocol revisions a client may select with `initialize`.
pub open spec fn legacy_versions() -> Seq<Seq<char>> {
    seq!["2024-11-05"@, "2025-03-26"@, "2025-06-18"@, "2025-11-25"@]
}

// ---------------------------------------------------------------------------------------------
// Structured errors
// ---------------------------------------------------------------------------------------------

/// A structured, credential-safe error exposed to MCP clients.
///
/// Its code and message are the static values of the application error it was made from;
/// nothing else can be attached to it.
#[derive(Clone, Copy, Debug, PartialEq, Eq, Structural)]
pub struct McpError {
    error: ApplicationError,
}

impl McpError {
    pub closed spec fn source(self) -> ApplicationError {
        self.error
    }

    pub closed spec fn carrying(error: ApplicationError) -> McpError {
        McpError { error }
    }

    /// Returns the stable machine-readable application error code.
    pub fn code(self) -> (code: &'static str)
        ensures
            code@ == error_code(self.source()),
    {
        self.error.code()
    }

    /// Returns the credential-safe message intended for an MCP client.
    pub fn message(self) -> (message: &'static str)
        ensures
            message@ == error_message(self.source()),
    {
        self.error.message()
    }

    /// The text the error displays as: its message.
    pub fn to_string(&self) -> (text: String)
        ensures
            text@ == error_message(self.source()),
    {
        self.error.message().to_owned()
    }
}

impl From<ApplicationError> for McpError {
    fn from(error: ApplicationError) -> (mcp_error: McpError) {
        McpError { error }
    }
}

impl vstd::std_specs::convert::FromSpecImpl<ApplicationError> for McpError {
    open spec fn obeys_from_spec() -> bool {
        true
    }

    open spec fn from_spec(error: ApplicationError) -> McpError {
        McpError::carrying(error)
    }
}

/// Converting an application error keeps its code and its message.
pub proof fn lemma_mcp_error_keeps_code_and_message(error: ApplicationError)
    ensures
        error_code(McpError::from_spec(error).source()) == error_code(error),
        error_message(McpError::from_spec(error).source()) == error_message(error),
{
}

/// A JSON-RPC error: its numeric code, its message and optional data.
pub struct RpcErrorView {
    pub code: int,
    pub message: Seq<char>,
    pub data: Option<Json>,
}

/// A JSON-RPC error object.
#[derive(Debug)]
pub struct RpcError {
    code: i64,
    message: &'static str,
    data: Option<JsonValue>,
}

impl View for RpcError {
    type V = RpcErrorView;

    closed spec fn view(&self) -> RpcErrorView {
        RpcErrorView {
            code: self.code as int,
            message: self.message@,
            data: match self.data {
                Some(d) => Some(json_of(d)),
                None => None,
            },
        }
    }
}

pub open spec fn plain_error(code: int, message: Seq<char>) -> RpcErrorView {
    RpcErrorView { code, message, data: None }
}

pub open spec fn invalid_request_error(message: Seq<char>) -> RpcErrorView {
    plain_error(-32600, message)
}

pub open spec fn invalid_params_error(message: Seq<char>) -> RpcErrorView {
    plain_error(-32602, message)
}

/// The data of an unsupported-version error: what is supported and what was asked for.
pub open spec fn unsupported_version_error(requested: Seq<char>) -> RpcErrorView {
    RpcErrorView {
        code: -32022,
        message: "Unsupported protocol version."@,
        data: Some(
            obj(
                seq![
                    ("supported"@, Json::Array(seq![Json::Str(current_version())])),
                    ("requested"@, Json::Str(requested)),
                ],
            ),
        ),
    }
}

impl RpcError {
    pub fn parse_error() -> (e: RpcError)
        ensures
            e@ == plain_error(-32700, "Parse error."@),
    {
        RpcError { code: -32700, message: "Parse error.", data: None }
    }

    pub fn invalid_request(message: &'static str) -> (e: RpcError)
        ensures
            e@ == invalid_request_error(message@),
    {
        RpcError { code: -32600, message, data: None }
    }

    pub fn method_not_found() -> (e: RpcError)
        ensures
            e@ == plain_error(-32601, "Method not found."@),
    {
        RpcError { code: -32601, message: "Method not found.", data: None }
    }

    pub fn invalid_params(message: &'static str) -> (e: RpcError)
        ensures
            e@ == invalid_params_error(message@),
    {
        RpcError { code: -32602, message, data: None }
    }

    pub fn server_not_initialized() -> (e: RpcError)
        ensures
            e@ == plain_error(-32002, "The server has not been initialized."@),
    {
        RpcError { code: -32002, message: "The server has not been initialized.", data: None }
    }

    pub fn too_many_requests() -> (e: RpcError)
        ensures
            e@ == plain_error(-32000, "Too many tool requests are already in flight."@),
    {
        RpcError {
            code: -32000,
            message: "Too many tool requests are already in flight.",
            data: None,
        }
    }

    pub fn unsupported_protocol_version(requested: &str) -> (e: RpcError)
        ensures
            e@ == unsupported_version_error(requested@),
    {
        let version = JsonValue::string(CURRENT_PROTOCOL_VERSION);
        let ghost version_view = version@;
        let mut supported: Vec<JsonValue> = Vec::new();
        supported.push(version);
        assert(item_views(supported@) =~= seq![version_view]);
        let supported = JsonValue::array(supported);
        let ghost sv = supported@;
        let o = JsonObject::new().with("supported", supported).with(
            "requested",
            JsonValue::string(requested),
        );
        assert(o@ =~= seq![("supported"@, sv), ("requested"@, Json::Str(requested@))]);
        let data = o.build();
        RpcError { code: -32022, message: "Unsupported protocol version.", data: Some(data) }
    }
}

// ---------------------------------------------------------------------------------------------
// JSON-RPC envelopes
// ---------------------------------------------------------------------------------------------

pub open spec fn int_json(n: int) -> Json {
    Json::Number(integer_text(n))
}

/// The `error` member of an error response.
pub open spec fn error_object(e: RpcErrorView) -> Json {
    match e.data {
        None => obj(seq![("code"@, int_json(e.code)), ("message"@, Json::Str(e.message))]),
        Some(d) => obj(
            seq![("code"@, int_json(e.code)), ("message"@, Json::Str(e.message)), ("data"@, d)],
        ),
    }
}

pub open spec fn success_response_json(id: Json, result: Json) -> Json {
    obj(seq![("jsonrpc"@, Json::Str("2.0"@)), ("id"@, id), ("result"@, result)])
}

pub open spec fn error_response_json(id: Json, e: RpcErrorView) -> Json {
    obj(seq![("jsonrpc"@, Json::Str("2.0"@)), ("id"@, id), ("error"@, error_object(e))])
}

/// A successful JSON-RPC response carrying `result` for request `id`.
pub fn success_response(id: JsonValue, result: JsonValue) -> (response: JsonValue)
    ensures
        response@ == success_response_json(id@, result@),
{
    let ghost (i, r) = (id@, result@);
    let o = JsonObject::new().with("jsonrpc", JsonValue::string("2.0")).with("id", id).with(
        "result",
        result,
    );
    assert(o@ =~= seq![("jsonrpc"@, Json::Str("2.0"@)), ("id"@, i), ("result"@, r)]);
    o.build()
}

/// A JSON-RPC error response for request `id`.
pub fn error_response(id: JsonValue, error: RpcError) -> (response: JsonValue)
    ensures
        response@ == error_response_json(id@, error@),
{
    let ghost ev = error@;
    let RpcError { code, message, data } = error;
    let inner = JsonObject::new().with("code", JsonValue::from_i64(code)).with(
        "message",
        JsonValue::string(message),
    );
    let ghost base = seq![("code"@, int_json(code as int)), ("message"@, Json::Str(message@))];
    assert(inner@ =~= base);
    let inner = match data {
        Some(d) => {
            let ghost dv = d@;
            let with_data = inner.with("data", d);
            assert(with_data@ =~= seq![
                ("code"@, int_json(code as int)),
                ("message"@, Json::Str(message@)),
                ("data"@, dv),
            ]);
            assert(ev.data == Some(dv));
            with_data.build()
        },
        None => {
            assert(ev.data.is_none());
            inner.build()
        },
    };
    assert(inner@ == error_object(ev));
    let ghost (i, e) = (id@, inner@);
    let o = JsonObject::new().with("jsonrpc", JsonValue::string("2.0")).with("id", id).with(
        "error",
        inner,
    );
    assert(o@ =~= seq![("jsonrpc"@, Json::Str("2.0"@)), ("id"@, i), ("error"@, e)]);
    o.build()
}

// ---------------------------------------------------------------------------------------------
// Result documents
// ---------------------------------------------------------------------------------------------

/// Which protocol generation a request belongs to.
#[derive(Clone, Copy, Debug, PartialEq, Eq, Structural)]
pub enum ProtocolEra {
    Current,
    Legacy,
}

pub open spec fn jstr(s: Seq<char>) -> Json {
    Json::Str(s)
}

pub open spec fn server_info_json() -> Json {
    obj(seq![("name"@, jstr(SERVER_NAME@)), ("version"@, jstr(SERVER_VERSION@))])
}

pub open spec fn server_capabilities_json() -> Json {
    obj(seq![("tools"@, obj(seq![("listChanged"@, Json::Bool(false))]))])
}

/// A result as the protocol generation wants it: the current protocol adds a result type and
/// the server's identity under `_meta`.
pub open spec fn complete_result_json(pairs: Seq<(Seq<char>, Json)>, era: ProtocolEra) -> Json {
    match era {
        ProtocolEra::Current => obj(
            pairs.push(("resultType"@, jstr("complete"@))).push(
                ("_meta"@, obj(seq![("io.modelcontextprotocol/serverInfo"@, server_info_json())])),
            ),
        ),
        ProtocolEra::Legacy => obj(pairs),
    }
}

pub fn server_info() -> (info: JsonValue)
    ensures
        info@ == server_info_json(),
{
    JsonValue::object2("name", JsonValue::string(SERVER_NAME), "version", JsonValue::string(SERVER_VERSION))
}

pub fn server_capabilities() -> (capabilities: JsonValue)
    ensures
        capabilities@ == server_capabilities_json(),
{
    JsonValue::object1("tools", JsonValue::object1("listChanged", JsonValue::Bool(false)))
}

/// Finishes `result` for the given protocol generation.
pub fn complete_result(result: JsonObject, era: ProtocolEra) -> (completed: JsonValue)
    ensures
        completed@ == complete_result_json(result@, era),
{
    match era {
        ProtocolEra::Current => {
            let meta = JsonValue::object1("io.modelcontextprotocol/serverInfo", server_info());
            result.with("resultType", JsonValue::string("complete")).with("_meta", meta).build()
        },
        ProtocolEra::Legacy => result.build(),
    }
}

pub open spec fn tool_result_json(structured: Json, is_error: bool, era: ProtocolEra) -> Json {
    complete_result_json(
        seq![
            (
                "content"@,
                Json::Array(
                    seq![obj(seq![("type"@, jstr("text"@)), ("text"@, jstr(serialized(structured)))])],
                ),
            ),
            ("structuredContent"@, structured),
            ("isError"@, Json::Bool(is_error)),
        ],
        era,
    )
}

/// A tool result: the structured content, and the same content as JSON text.
pub fn tool_result(structured_content: JsonValue, is_error: bool, era: ProtocolEra) -> (result:
    JsonValue)
    ensures
        result@ == tool_result_json(structured_content@, is_error, era),
{
    let text = structured_content.to_text();
    let content = JsonValue::array1(
        JsonValue::object2("type", JsonValue::string("text"), "text", JsonValue::Str(text)),
    );
    let ghost (c, s) = (content@, structured_content@);
    let o = JsonObject::new().with("content", content).with(
        "structuredContent",
        structured_content,
    ).with("isError", JsonValue::Bool(is_error));
    assert(o@ =~= seq![
        ("content"@, c),
        ("structuredContent"@, s),
        ("isError"@, Json::Bool(is_error)),
    ]);
    complete_result(o, era)
}

pub open spec fn error_content_json(error: ApplicationError) -> Json {
    obj(
        seq![
            (
                "error"@,
                obj(
                    seq![("code"@, jstr(error_code(error))), ("message"@, jstr(error_message(error)))],
                ),
            ),
        ],
    )
}

/// The structured content of a failed tool call.
pub fn error_content(error: ApplicationError) -> (content: JsonValue)
    ensures
        content@ == error_content_json(error),
{
    let error = McpError::from(error);
    JsonValue::object1(
        "error",
        JsonValue::object2(
            "code",
            JsonValue::string(error.code()),
            "message",
            JsonValue::string(error.message()),
        ),
    )
}

pub open spec fn project_json(project: ProjectView) -> Json {
    obj(seq![("uuid"@, jstr(project.uuid)), ("name"@, jstr(project.name))])
}

/// A project as a tool reports it.
pub fn project_value(project: &Project) -> (value: JsonValue)
    ensures
        value@ == project_json(project@),
{
    JsonValue::object2(
        "uuid",
        JsonValue::string(project.uuid()),
        "name",
        JsonValue::string(project.name()),
    )
}

pub open spec fn type_json(t: Seq<char>) -> Json {
    obj(seq![("type"@, jstr(t))])
}

pub open spec fn project_schema_json() -> Json {
    obj(
        seq![
            ("type"@, jstr("object"@)),
            ("properties"@, obj(seq![("uuid"@, type_json("string"@)), ("name"@, type_json("string"@))])),
            ("required"@, Json::Array(seq![jstr("uuid"@), jstr("name"@)])),
            ("additionalProperties"@, Json::Bool(false)),
        ],
    )
}

fn type_value(t: &str) -> (value: JsonValue)
    ensures
        value@ == type_json(t@),
{
    JsonValue::object1("type", JsonValue::string(t))
}

fn project_schema() -> (schema: JsonValue)
    ensures
        schema@ == project_schema_json(),
{
    JsonValue::object4(
        "type",
        JsonValue::string("object"),
        "properties",
        JsonValue::object2("uuid", type_value("string"), "name", type_value("string")),
        "required",
        JsonValue::array2(JsonValue::string("uuid"), JsonValue::string("name")),
        "additionalProperties",
        JsonValue::Bool(false),
    )
}

pub open spec fn error_schema_json() -> Json {
    obj(
        seq![
            ("type"@, jstr("object"@)),
            (
                "properties"@,
                obj(
                    seq![
                        (
                            "error"@,
                            obj(
                                seq![
                                    ("type"@, jstr("object"@)),
                                    (
                                        "properties"@,
                                        obj(
                                            seq![
                                                ("code"@, type_json("string"@)),
                                                ("message"@, type_json("string"@)),
                                            ],
                                        ),
                                    ),
                                    ("required"@, Json::Array(seq![jstr("code"@), jstr("message"@)])),
                                    ("additionalProperties"@, Json::Bool(false)),
                                ],
                            ),
                        ),
                    ],
                ),
            ),
            ("required"@, Json::Array(seq![jstr("error"@)])),
            ("additionalProperties"@, Json::Bool(false)),
        ],
    )
}

fn error_schema() -> (schema: JsonValue)
    ensures
        schema@ == error_schema_json(),
{
    let error_object = JsonValue::object4(
        "type",
        JsonValue::string("object"),
        "properties",
        JsonValue::object2("code", type_value("string"), "message", type_value("string")),
        "required",
        JsonValue::array2(JsonValue::string("code"), JsonValue::string("message")),
        "additionalProperties",
        JsonValue::Bool(false),
    );
    JsonValue::object4(
        "type",
        JsonValue::string("object"),
        "properties",
        JsonValue::object1("error", error_object),
        "required",
        JsonValue::array1(JsonValue::string("error")),
        "additionalProperties",
        JsonValue::Bool(false),
    )
}

pub open spec fn project_result_schema_json(is_list: bool) -> Json {
    let success = if is_list {
        obj(
            seq![
                ("type"@, jstr("object"@)),
                (
                    "properties"@,
                    obj(
                        seq![
                            (
                                "projects"@,
                                obj(seq![("type"@, jstr("array"@)), ("items"@, project_schema_json())]),
                            ),
                        ],
                    ),
                ),
                ("required"@, Json::Array(seq![jstr("projects"@)])),
                ("additionalProperties"@, Json::Bool(false)),
            ],
        )
    } else {
        obj(
            seq![
                ("type"@, jstr("object"@)),
                ("properties"@, obj(seq![("project"@, project_schema_json())])),
                ("required"@, Json::Array(seq![jstr("project"@)])),
                ("additionalProperties"@, Json::Bool(false)),
            ],
        )
    };
    obj(
        seq![
            ("type"@, jstr("object"@)),
            ("oneOf"@, Json::Array(seq![success, error_schema_json()])),
        ],
    )
}

/// The output schema of a project tool: its success shape, or an error.
pub fn project_result_schema(is_list: bool) -> (schema: JsonValue)
    ensures
        schema@ == project_result_schema_json(is_list),
{
    let success = if is_list {
        JsonValue::object4(
            "type",
            JsonValue::string("object"),
            "properties",
            JsonValue::object1(
                "projects",
                JsonValue::object2("type", JsonValue::string("array"), "items", project_schema()),
            ),
            "required",
            JsonValue::array1(JsonValue::string("projects")),
            "additionalProperties",
            JsonValue::Bool(false),
        )
    } else {
        JsonValue::object4(
            "type",
            JsonValue::string("object"),
            "properties",
            JsonValue::object1("project", project_schema()),
            "required",
            JsonValue::array1(JsonValue::string("project")),
            "additionalProperties",
            JsonValue::Bool(false),
        )
    };
    JsonValue::object2(
        "type",
        JsonValue::string("object"),
        "oneOf",
        JsonValue::array2(success, error_schema()),
    )
}

pub open spec fn read_only_annotations_json() -> Json {
    obj(
        seq![
            ("readOnlyHint"@, Json::Bool(true)),
            ("destructiveHint"@, Json::Bool(false)),
            ("idempotentHint"@, Json::Bool(true)),
            ("openWorldHint"@, Json::Bool(true)),
        ],
    )
}

fn read_only_annotations() -> (annotations: JsonValue)
    ensures
        annotations@ == read_only_annotations_json(),
{
    JsonValue::object4(
        "readOnlyHint",
        JsonValue::Bool(true),
        "destructiveHint",
        JsonValue::Bool(false),
        "idempotentHint",
        JsonValue::Bool(true),
        "openWorldHint",
        JsonValue::Bool(true),
    )
}

pub open spec fn tool_json(
    name: Seq<char>,
    title: Seq<char>,
    description: Seq<char>,
    input_schema: Json,
    is_list: bool,
) -> Json {
    obj(
        seq![
            ("name"@, jstr(name)),
            ("title"@, jstr(title)),
            ("description"@, jstr(description)),
            ("inputSchema"@, input_schema),
            ("outputSchema"@, project_result_schema_json(is_list)),
            ("annotations"@, read_only_annotations_json()),
        ],
    )
}

fn tool(name: &str, title: &str, description: &str, input_schema: JsonValue, is_list: bool) -> (t:
    JsonValue)
    ensures
        t@ == tool_json(name@, title@, description@, input_schema@, is_list),
{
    let output_schema = project_result_schema(is_list);
    let ghost (i, o) = (input_schema@, output_schema@);
    let t = JsonObject::new().with("name", JsonValue::string(name)).with(
        "title",
        JsonValue::string(title),
    ).with("description", JsonValue::string(description)).with("inputSchema", input_schema).with(
        "outputSchema",
        output_schema,
    ).with("annotations", read_only_annotations());
    assert(t@ =~= seq![
        ("name"@, jstr(name@)),
        ("title"@, jstr(title@)),
        ("description"@, jstr(description@)),
        ("inputSchema"@, i),
        ("outputSchema"@, o),
        ("annotations"@, read_only_annotations_json()),
    ]);
    t.build()
}

/// The two read-only tools, in their stable order: `list_projects`, then `get_project`.
pub open spec fn tool_definitions_json() -> Json {
    Json::Array(
        seq![
            tool_json(
                "list_projects"@,
                "List Codecks projects"@,
                "Lists every active Codecks project visible to the authenticated account."@,
                obj(
                    seq![
                        ("type"@, jstr("object"@)),
                        ("properties"@, obj(seq![])),
                        ("additionalProperties"@, Json::Bool(false)),
                    ],
                ),
                true,
            ),
            tool_json(
                "get_project"@,
                "Get a Codecks project"@,
                "Gets a Codecks project by UUID or exact name, or selects the only available project."@,
                obj(
                    seq![
                        ("type"@, jstr("object"@)),
                        (
                            "properties"@,
                            obj(
                                seq![
                                    (
                                        "project"@,
                                        obj(
                                            seq![
                                                ("type"@, jstr("string"@)),
                                                (
                                                    "description"@,
                                                    jstr("Optional project UUID or exact project name."@),
                                                ),
                                            ],
                                        ),
                                    ),
                                ],
                            ),
                        ),
                        ("additionalProperties"@, Json::Bool(false)),
                    ],
                ),
                false,
            ),
        ],
    )
}

/// The tool catalog: static and independent of the account.
pub fn tool_definitions() -> (definitions: JsonValue)
    ensures
        definitions@ == tool_definitions_json(),
{
    let empty = JsonObject::new().build();
    let list_input = JsonValue::object3(
        "type",
        JsonValue::string("object"),
        "properties",
        empty,
        "additionalProperties",
        JsonValue::Bool(false),
    );
    let list_projects = tool(
        "list_projects",
        "List Codecks projects",
        "Lists every active Codecks project visible to the authenticated account.",
        list_input,
        true,
    );
    let get_input = JsonValue::object3(
        "type",
        JsonValue::string("object"),
        "properties",
        JsonValue::object1(
            "project",
            JsonValue::object2(
                "type",
                JsonValue::string("string"),
                "description",
                JsonValue::string("Optional project UUID or exact project name."),
            ),
        ),
        "additionalProperties",
        JsonValue::Bool(false),
    );
    let get_project = tool(
        "get_project",
        "Get a Codecks project",
        "Gets a Codecks project by UUID or exact name, or selects the only available project.",
        get_input,
        false,
    );
    JsonValue::array2(list_projects, get_project)
}

// ---------------------------------------------------------------------------------------------
// Request validation
// ---------------------------------------------------------------------------------------------

pub open spec fn rpc_result<T>(r: Result<T, RpcError>) -> Result<T, RpcErrorView> {
    match r {
        Ok(t) => Ok(t),
        Err(e) => Err(e@),
    }
}

pub open spec fn json_ref_result(r: Result<&JsonValue, RpcError>) -> Result<Json, RpcErrorView> {
    match r {
        Ok(v) => Ok(json_of(*v)),
        Err(e) => Err(e@),
    }
}

pub open spec fn protocol_version_key() -> Seq<char> {
    "io.modelcontextprotocol/protocolVersion"@
}

pub open spec fn client_capabilities_key() -> Seq<char> {
    "io.modelcontextprotocol/clientCapabilities"@
}

/// The member `key` of `j`, when it is present and is itself an object.
pub open spec fn member_is_object(j: Json, key: Seq<char>) -> bool {
    j.get(key) is Some && j.get(key)->0.is_object()
}

/// The text of the member `key` of `j`, when it is present and is a string.
pub open spec fn string_member(j: Json, key: Seq<char>) -> Option<Seq<char>> {
    match j.get(key) {
        Some(v) => v.as_str(),
        None => None,
    }
}

pub open spec fn params_object_spec(p: Option<Json>) -> Result<Json, RpcErrorView> {
    match p {
        Some(j) => if j.is_object() {
            Ok(j)
        } else {
            Err(invalid_params_error("params must be an object."@))
        },
        None => Err(invalid_params_error("params must be an object."@)),
    }
}

/// The checks made of current-protocol metadata, in order.
pub open spec fn metadata_check(p: Option<Json>) -> Result<(), RpcErrorView> {
    match params_object_spec(p) {
        Err(e) => Err(e),
        Ok(params) => if !member_is_object(params, "_meta"@) {
            Err(invalid_params_error("_meta must be an object."@))
        } else {
            let meta = params.get("_meta"@)->0;
            match string_member(meta, protocol_version_key()) {
                None => Err(invalid_params_error("Current protocol metadata requires a version."@)),
                Some(version) => if version != current_version() {
                    Err(unsupported_version_error(version))
                } else if !member_is_object(meta, client_capabilities_key()) {
                    Err(
                        invalid_params_error(
                            "Current protocol metadata requires client capabilities."@,
                        ),
                    )
                } else {
                    Ok(())
                },
            }
        },
    }
}

/// The metadata a request carries: the `_meta` member of an object `params`.
pub open spec fn request_metadata(p: Option<Json>) -> Option<Json> {
    match p {
        Some(j) => j.get("_meta"@),
        None => None,
    }
}

/// The protocol generation of a request: current when its metadata names a protocol
/// version, legacy after a legacy initialization, current when it carries any metadata.
pub open spec fn era_of(legacy_initialized: bool, p: Option<Json>) -> Result<
    ProtocolEra,
    RpcErrorView,
> {
    let meta = request_metadata(p);
    if meta is Some && !meta->0.is_object() {
        Err(invalid_params_error("_meta must be an object."@))
    } else if meta is Some && meta->0.get(protocol_version_key()) is Some {
        match metadata_check(p) {
            Err(e) => Err(e),
            Ok(_) => Ok(ProtocolEra::Current),
        }
    } else if legacy_initialized {
        Ok(ProtocolEra::Legacy)
    } else if meta is Some {
        match metadata_check(p) {
            Err(e) => Err(e),
            Ok(_) => Ok(ProtocolEra::Current),
        }
    } else {
        Err(plain_error(-32002, "The server has not been initialized."@))
    }
}

/// Every key of `object` is among `accepted`.
pub open spec fn keys_accepted(object: Json, accepted: Seq<Seq<char>>) -> bool {
    forall|i: int| 0 <= i < object.keys().len() ==> accepted.contains(#[trigger] object.keys()[i])
}

pub open spec fn str_views(strs: Seq<&str>) -> Seq<Seq<char>> {
    strs.map_values(|s: &str| s@)
}

pub open spec fn unsupported_field_error() -> RpcErrorView {
    invalid_params_error("The request contains an unsupported field."@)
}

/// The optional string member `field`: absent, a string, or an error.
pub open spec fn optional_string_spec(object: Json, field: Seq<char>) -> Result<
    Option<Seq<char>>,
    RpcErrorView,
> {
    match object.get(field) {
        None => Ok(None),
        Some(v) => match v.as_str() {
            Some(t) => Ok(Some(t)),
            None => Err(invalid_params_error("The project selector must be a string."@)),
        },
    }
}

pub fn required_object(params: Option<&JsonValue>) -> (object: Result<&JsonValue, RpcError>)
    ensures
        json_ref_result(object) == params_object_spec(opt_json(params)),
{
    match params {
        Some(p) => {
            if p.is_object() {
                Ok(p)
            } else {
                Err(RpcError::invalid_params("params must be an object."))
            }
        },
        None => Err(RpcError::invalid_params("params must be an object.")),
    }
}

pub fn require_object_field(params: &JsonValue, field: &str) -> (checked: Result<(), RpcError>)
    ensures
        rpc_result(checked) == (if member_is_object(params@, field@) {
            Ok::<(), RpcErrorView>(())
        } else {
            Err(invalid_params_error("A required object field is missing or invalid."@))
        }),
{
    match params.get(field) {
        Some(v) => {
            if v.is_object() {
                return Ok(());
            }
        },
        None => {},
    }
    Err(RpcError::invalid_params("A required object field is missing or invalid."))
}

fn is_accepted(key: &str, accepted: &[&str]) -> (found: bool)
    ensures
        found == str_views(accepted@).contains(key@),
{
    let mut i: usize = 0;
    while i < accepted.len()
        invariant
            i <= accepted@.len(),
            forall|j: int| 0 <= j < i ==> accepted@[j]@ != key@,
        decreases accepted.len() - i,
    {
        if str_equal(accepted[i], key) {
            assert(str_views(accepted@)[i as int] == key@);
            return true;
        }
        i = i + 1;
    }
    proof {
        if str_views(accepted@).contains(key@) {
            let j = choose|j: int| 0 <= j < str_views(accepted@).len() && str_views(accepted@)[j] == key@;
            assert(accepted@[j]@ == key@);
        }
    }
    false
}

/// Rejects an object with a key outside `accepted`.
pub fn reject_unknown_fields(object: &JsonValue, accepted: &[&str]) -> (checked: Result<
    (),
    RpcError,
>)
    ensures
        rpc_result(checked) == (if keys_accepted(object@, str_views(accepted@)) {
            Ok::<(), RpcErrorView>(())
        } else {
            Err(unsupported_field_error())
        }),
{
    match object {
        JsonValue::Object(entries) => {
            let ghost keys = object@.keys();
            assert(keys.len() == entries@.len());
            let mut i: usize = 0;
            while i < entries.len()
                invariant
                    *object == JsonValue::Object(*entries),
                    keys == object@.keys(),
                    keys.len() == entries@.len(),
                    i <= entries@.len(),
                    forall|j: int| 0 <= j < i ==> str_views(accepted@).contains(#[trigger] keys[j]),
                decreases entries.len() - i,
            {
                assert(keys[i as int] == entries@[i as int].0@);
                if !is_accepted(entries[i].0.as_str(), accepted) {
                    return Err(RpcError::invalid_params("The request contains an unsupported field."));
                }
                i = i + 1;
            }
            Ok(())
        },
        _ => {
            assert(object@.keys().len() == 0);
            Ok(())
        },
    }
}

/// The optional string member `field` of `object`.
pub fn optional_string<'v>(object: &'v JsonValue, field: &str) -> (selector: Result<
    Option<&'v str>,
    RpcError,
>)
    ensures
        match (selector, optional_string_spec(object@, field@)) {
            (Ok(Some(t)), Ok(Some(u))) => t@ == u,
            (Ok(None), Ok(None)) => true,
            (Err(e), Err(f)) => e@ == f,
            _ => false,
        },
{
    match object.get(field) {
        None => Ok(None),
        Some(v) => match v.as_str() {
            Some(t) => Ok(Some(t)),
            None => Err(RpcError::invalid_params("The project selector must be a string.")),
        },
    }
}

/// Checks the metadata that a current-protocol request must carry.
pub fn validate_current_metadata(params: Option<&JsonValue>) -> (checked: Result<(), RpcError>)
    ensures
        rpc_result(checked) == metadata_check(opt_json(params)),
{
    let params = required_object(params)?;
    let metadata = match params.get("_meta") {
        Some(m) => {
            if m.is_object() {
                m
            } else {
                return Err(RpcError::invalid_params("_meta must be an object."));
            }
        },
        None => {
            return Err(RpcError::invalid_params("_meta must be an object."));
        },
    };
    let protocol_version = match metadata.get("io.modelcontextprotocol/protocolVersion") {
        Some(v) => match v.as_str() {
            Some(t) => t,
            None => {
                return Err(
                    RpcError::invalid_params("Current protocol metadata requires a version."),
                );
            },
        },
        None => {
            return Err(RpcError::invalid_params("Current protocol metadata requires a version."));
        },
    };
    if !str_equal(protocol_version, CURRENT_PROTOCOL_VERSION) {
        return Err(RpcError::unsupported_protocol_version(protocol_version));
    }
    match metadata.get("io.modelcontextprotocol/clientCapabilities") {
        Some(c) => {
            if c.is_object() {
                return Ok(());
            }
        },
        None => {},
    }
    Err(RpcError::invalid_params("Current protocol metadata requires client capabilities."))
}

// ---------------------------------------------------------------------------------------------
// Requests
// ---------------------------------------------------------------------------------------------

/// The key of an in-flight request: its JSON-RPC ID, a string or the text of a number.
#[derive(Clone, Debug, PartialEq, Eq, Hash)]
pub enum RequestKey {
    String(String),
    Number(String),
}

pub enum RequestKeyView {
    String(Seq<char>),
    Number(Seq<char>),
}

impl View for RequestKey {
    type V = RequestKeyView;

    open spec fn view(&self) -> RequestKeyView {
        match self {
            RequestKey::String(s) => RequestKeyView::String(s@),
            RequestKey::Number(n) => RequestKeyView::Number(n@),
        }
    }
}

/// The key of a JSON-RPC ID; only strings and numbers are IDs.
pub open spec fn request_key_of(id: Json) -> Option<RequestKeyView> {
    match id {
        Json::Str(s) => Some(RequestKeyView::String(s)),
        Json::Number(n) => Some(RequestKeyView::Number(n)),
        _ => None,
    }
}

impl RequestKey {
    /// The key of a JSON-RPC ID, or `None` for a value that is no string or number.
    pub fn from_value(value: &JsonValue) -> (key: Option<RequestKey>)
        ensures
            match key {
                Some(k) => request_key_of(value@) == Some(k@),
                None => request_key_of(value@) is None,
            },
    {
        match value {
            JsonValue::Str(s) => Some(RequestKey::String(s.clone())),
            JsonValue::Number(n) => Some(RequestKey::Number(n.clone())),
            _ => None,
        }
    }

    /// A copy of the key.
    pub fn duplicate(&self) -> (copy: RequestKey)
        ensures
            copy@ == self@,
    {
        match self {
            RequestKey::String(s) => RequestKey::String(s.clone()),
            RequestKey::Number(n) => RequestKey::Number(n.clone()),
        }
    }

    /// Whether two keys are the same.
    pub fn same(&self, other: &RequestKey) -> (same: bool)
        ensures
            same == (self@ == other@),
    {
        match (self, other) {
            (RequestKey::String(a), RequestKey::String(b)) => str_equal(a.as_str(), b.as_str()),
            (RequestKey::Number(a), RequestKey::Number(b)) => str_equal(a.as_str(), b.as_str()),
            _ => false,
        }
    }
}

/// Which project tool a call asks for.
#[derive(Debug)]
pub enum ToolRequest {
    ListProjects,
    GetProject(Option<String>),
}

pub enum ToolRequestView {
    ListProjects,
    GetProject(Option<Seq<char>>),
}

impl View for ToolRequest {
    type V = ToolRequestView;

    open spec fn view(&self) -> ToolRequestView {
        match self {
            ToolRequest::ListProjects => ToolRequestView::ListProjects,
            ToolRequest::GetProject(Some(s)) => ToolRequestView::GetProject(Some(s@)),
            ToolRequest::GetProject(None) => ToolRequestView::GetProject(None),
        }
    }
}

/// A validated tool call that waits for the account's project list.
#[derive(Debug)]
pub struct ToolCall {
    pub id: JsonValue,
    pub era: ProtocolEra,
    pub request: ToolRequest,
}

/// What to do with a message.
#[derive(Debug)]
pub enum Reply {
    /// Send this response.
    Respond(JsonValue),
    /// Send nothing: the message was a notification.
    Silent,
    /// Fetch the projects and answer with `McpServer::complete_tool_call`.
    CallTool(ToolCall),
}

pub enum ReplyView {
    Respond(Json),
    Silent,
    CallTool(Json, ProtocolEra, ToolRequestView),
}

impl View for Reply {
    type V = ReplyView;

    open spec fn view(&self) -> ReplyView {
        match self {
            Reply::Respond(r) => ReplyView::Respond(json_of(*r)),
            Reply::Silent => ReplyView::Silent,
            Reply::CallTool(c) => ReplyView::CallTool(json_of(c.id), c.era, c.request@),
        }
    }
}

/// How a request ends: with a result or error, or with a tool call to run.
pub enum Outcome {
    Done(Result<Json, RpcErrorView>),
    Tool(ProtocolEra, ToolRequestView),
}

pub open spec fn initialize_json(params: Option<Json>) -> Result<Json, RpcErrorView> {
    match params_object_spec(params) {
        Err(e) => Err(e),
        Ok(p) => match string_member(p, "protocolVersion"@) {
            None => Err(invalid_params_error("protocolVersion must be a string."@)),
            Some(requested) => if !member_is_object(p, "capabilities"@) || !member_is_object(
                p,
                "clientInfo"@,
            ) {
                Err(invalid_params_error("A required object field is missing or invalid."@))
            } else {
                Ok(
                    obj(
                        seq![
                            (
                                "protocolVersion"@,
                                jstr(
                                    if legacy_versions().contains(requested) {
                                        requested
                                    } else {
                                        "2025-11-25"@
                                    },
                                ),
                            ),
                            ("capabilities"@, server_capabilities_json()),
                            ("serverInfo"@, server_info_json()),
                        ],
                    ),
                )
            },
        },
    }
}

pub open spec fn discover_json(params: Option<Json>) -> Result<Json, RpcErrorView> {
    match metadata_check(params) {
        Err(e) => Err(e),
        Ok(_) => Ok(
            complete_result_json(
                seq![
                    ("supportedVersions"@, Json::Array(seq![jstr(current_version())])),
                    ("capabilities"@, server_capabilities_json()),
                    ("ttlMs"@, int_json(3_600_000)),
                    ("cacheScope"@, jstr("public"@)),
                ],
                ProtocolEra::Current,
            ),
        ),
    }
}

pub open spec fn ping_json(legacy_initialized: bool, params: Option<Json>) -> Result<
    Json,
    RpcErrorView,
> {
    match era_of(legacy_initialized, params) {
        Err(e) => Err(e),
        Ok(era) => Ok(complete_result_json(seq![], era)),
    }
}

pub open spec fn list_tools_params_check(params: Option<Json>) -> Result<(), RpcErrorView> {
    match params {
        None => Ok(()),
        Some(p) => if !p.is_object() {
            Err(invalid_params_error("params must be an object."@))
        } else if p.get("cursor"@) is Some {
            Err(invalid_params_error("This server does not issue or accept pagination cursors."@))
        } else if !keys_accepted(p, seq!["_meta"@]) {
            Err(unsupported_field_error())
        } else {
            Ok(())
        },
    }
}

pub open spec fn list_tools_json(legacy_initialized: bool, params: Option<Json>) -> Result<
    Json,
    RpcErrorView,
> {
    match era_of(legacy_initialized, params) {
        Err(e) => Err(e),
        Ok(era) => match list_tools_params_check(params) {
            Err(e) => Err(e),
            Ok(_) => Ok(
                complete_result_json(
                    if era == ProtocolEra::Current {
                        seq![
                            ("tools"@, tool_definitions_json()),
                            ("ttlMs"@, int_json(3_600_000)),
                            ("cacheScope"@, jstr("public"@)),
                        ]
                    } else {
                        seq![("tools"@, tool_definitions_json())]
                    },
                    era,
                ),
            ),
        },
    }
}

/// The arguments of a tool call: an object, absent (no arguments), or an error.
pub open spec fn tool_arguments(p: Json) -> Result<Json, RpcErrorView> {
    match p.get("arguments"@) {
        Some(a) => if a.is_object() {
            Ok(a)
        } else {
            Err(invalid_params_error("arguments must be an object."@))
        },
        None => Ok(obj(seq![])),
    }
}

pub open spec fn call_tool_spec(legacy_initialized: bool, params: Option<Json>) -> Result<
    (ProtocolEra, ToolRequestView),
    RpcErrorView,
> {
    match era_of(legacy_initialized, params) {
        Err(e) => Err(e),
        Ok(era) => match params_object_spec(params) {
            Err(e) => Err(e),
            Ok(p) => if !keys_accepted(p, seq!["name"@, "arguments"@, "_meta"@]) {
                Err(unsupported_field_error())
            } else {
                match string_member(p, "name"@) {
                    None => Err(invalid_params_error("name must be a string."@)),
                    Some(name) => match tool_arguments(p) {
                        Err(e) => Err(e),
                        Ok(arguments) => if name == "list_projects"@ {
                            if !keys_accepted(arguments, seq![]) {
                                Err(unsupported_field_error())
                            } else {
                                Ok((era, ToolRequestView::ListProjects))
                            }
                        } else if name == "get_project"@ {
                            if !keys_accepted(arguments, seq!["project"@]) {
                                Err(unsupported_field_error())
                            } else {
                                match optional_string_spec(arguments, "project"@) {
                                    Err(e) => Err(e),
                                    Ok(selector) => Ok((era, ToolRequestView::GetProject(selector))),
                                }
                            }
                        } else {
                            Err(invalid_params_error("Unknown tool name."@))
                        },
                    },
                }
            },
        },
    }
}

/// How a request with an ID ends, and whether the server is legacy-initialized afterwards.
pub open spec fn request_outcome(legacy_initialized: bool, method: Seq<char>, params: Option<Json>) -> (
    bool,
    Outcome,
) {
    if method == "initialize"@ {
        let r = initialize_json(params);
        (legacy_initialized || r is Ok, Outcome::Done(r))
    } else if method == "server/discover"@ {
        (legacy_initialized, Outcome::Done(discover_json(params)))
    } else if method == "ping"@ {
        (legacy_initialized, Outcome::Done(ping_json(legacy_initialized, params)))
    } else if method == "tools/list"@ {
        (legacy_initialized, Outcome::Done(list_tools_json(legacy_initialized, params)))
    } else if method == "tools/call"@ {
        (
            legacy_initialized,
            match call_tool_spec(legacy_initialized, params) {
                Ok((era, request)) => Outcome::Tool(era, request),
                Err(e) => Outcome::Done(Err(e)),
            },
        )
    } else {
        (
            legacy_initialized,
            Outcome::Done(
                match era_of(legacy_initialized, params) {
                    Err(e) => Err(e),
                    Ok(_) => Err(plain_error(-32601, "Method not found."@)),
                },
            ),
        )
    }
}

/// The reply to a message and whether the server is legacy-initialized afterwards.
///
/// A message must be an object with a string or number ID (or none), `"jsonrpc": "2.0"` and
/// a string method; a message without an ID is a notification and gets no reply.
pub open spec fn message_reply(legacy_initialized: bool, message: Json) -> (bool, ReplyView) {
    if !message.is_object() {
        (
            legacy_initialized,
            ReplyView::Respond(
                error_response_json(
                    Json::Null,
                    invalid_request_error("JSON-RPC messages must be objects."@),
                ),
            ),
        )
    } else {
        let id = message.get("id"@);
        if id is Some && request_key_of(id->0) is None {
            (
                legacy_initialized,
                ReplyView::Respond(
                    error_response_json(
                        Json::Null,
                        invalid_request_error("JSON-RPC request IDs must be strings or numbers."@),
                    ),
                ),
            )
        } else {
            let response_id = if id is Some {
                id->0
            } else {
                Json::Null
            };
            if string_member(message, "jsonrpc"@) != Some("2.0"@) {
                (
                    legacy_initialized,
                    ReplyView::Respond(
                        error_response_json(
                            response_id,
                            invalid_request_error("The jsonrpc field must be \"2.0\"."@),
                        ),
                    ),
                )
            } else {
                match string_member(message, "method"@) {
                    None => (
                        legacy_initialized,
                        ReplyView::Respond(
                            error_response_json(
                                response_id,
                                invalid_request_error("JSON-RPC requests require a method."@),
                            ),
                        ),
                    ),
                    Some(method) => if id is None {
                        (legacy_initialized, ReplyView::Silent)
                    } else {
                        let (after, outcome) = request_outcome(
                            legacy_initialized,
                            method,
                            message.get("params"@),
                        );
                        (
                            after,
                            match outcome {
                                Outcome::Done(Ok(result)) => ReplyView::Respond(
                                    success_response_json(response_id, result),
                                ),
                                Outcome::Done(Err(e)) => ReplyView::Respond(
                                    error_response_json(response_id, e),
                                ),
                                Outcome::Tool(era, request) => ReplyView::CallTool(
                                    response_id,
                                    era,
                                    request,
                                ),
                            },
                        )
                    },
                }
            }
        }
    }
}

/// The structured content of a project tool, given the account's projects or the error that
/// fetching them gave.
pub open spec fn tool_content(
    request: ToolRequestView,
    projects: Result<Seq<ProjectView>, ApplicationError>,
) -> Result<Json, ApplicationError> {
    match projects {
        Err(e) => Err(e),
        Ok(ps) => match request {
            ToolRequestView::ListProjects => Ok(
                obj(seq![("projects"@, Json::Array(ps.map_values(|p: ProjectView| project_json(p))))]),
            ),
            ToolRequestView::GetProject(selector) => match resolution(ps, selector) {
                Ok(i) => Ok(obj(seq![("project"@, project_json(ps[i]))])),
                Err(e) => Err(e),
            },
        },
    }
}

/// The response to a tool call: a tool result, flagged as an error when the call failed.
pub open spec fn tool_call_response(
    id: Json,
    era: ProtocolEra,
    request: ToolRequestView,
    projects: Result<Seq<ProjectView>, ApplicationError>,
) -> Json {
    success_response_json(
        id,
        match tool_content(request, projects) {
            Ok(content) => tool_result_json(content, false, era),
            Err(e) => tool_result_json(error_content_json(e), true, era),
        },
    )
}

pub open spec fn projects_result(projects: Result<Vec<Project>, ApplicationError>) -> Result<
    Seq<ProjectView>,
    ApplicationError,
> {
    match projects {
        Ok(ps) => Ok(project_views(ps@)),
        Err(e) => Err(e),
    }
}

/// A Codecks-backed MCP server's protocol state.
#[derive(Clone, Copy, Debug)]
pub struct McpServer {
    legacy_initialized: bool,
}

impl McpServer {
    pub closed spec fn legacy_initialized(self) -> bool {
        self.legacy_initialized
    }

    /// A server that has not been initialized.
    pub fn new() -> (server: McpServer)
        ensures
            !server.legacy_initialized(),
    {
        McpServer { legacy_initialized: false }
    }

    /// The protocol generation of a request.
    pub fn protocol_era(&self, params: Option<&JsonValue>) -> (era: Result<ProtocolEra, RpcError>)
        ensures
            rpc_result(era) == era_of(self.legacy_initialized(), opt_json(params)),
    {
        let metadata = match params {
            Some(p) => p.get("_meta"),
            None => None,
        };
        let mut advertises_current_protocol = false;
        match metadata {
            Some(m) => {
                if !m.is_object() {
                    return Err(RpcError::invalid_params("_meta must be an object."));
                }
                advertises_current_protocol = m.get("io.modelcontextprotocol/protocolVersion").is_some();
            },
            None => {},
        }
        if advertises_current_protocol {
            validate_current_metadata(params)?;
            Ok(ProtocolEra::Current)
        } else if self.legacy_initialized {
            Ok(ProtocolEra::Legacy)
        } else if metadata.is_some() {
            validate_current_metadata(params)?;
            Ok(ProtocolEra::Current)
        } else {
            Err(RpcError::server_not_initialized())
        }
    }

    fn initialize(&mut self, params: Option<&JsonValue>) -> (result: Result<JsonValue, RpcError>)
        ensures
            rpc_json_result(result) == initialize_json(opt_json(params)),
            final(self).legacy_initialized() == (old(self).legacy_initialized() || result is Ok),
    {
        let params = required_object(params)?;
        let requested_version = match params.get("protocolVersion") {
            Some(v) => match v.as_str() {
                Some(t) => t,
                None => {
                    return Err(RpcError::invalid_params("protocolVersion must be a string."));
                },
            },
            None => {
                return Err(RpcError::invalid_params("protocolVersion must be a string."));
            },
        };
        require_object_field(params, "capabilities")?;
        require_object_field(params, "clientInfo")?;
        let protocol_version = if is_legacy_version(requested_version) {
            requested_version
        } else {
            DEFAULT_LEGACY_PROTOCOL_VERSION
        };
        self.legacy_initialized = true;
        Ok(
            JsonValue::object3(
                "protocolVersion",
                JsonValue::string(protocol_version),
                "capabilities",
                server_capabilities(),
                "serverInfo",
                server_info(),
            ),
        )
    }

    fn discover(&self, params: Option<&JsonValue>) -> (result: Result<JsonValue, RpcError>)
        ensures
            rpc_json_result(result) == discover_json(opt_json(params)),
    {
        validate_current_metadata(params)?;
        let supported = JsonValue::array1(JsonValue::string(CURRENT_PROTOCOL_VERSION));
        let capabilities = server_capabilities();
        let ghost (sv, cv) = (supported@, capabilities@);
        let o = JsonObject::new().with("supportedVersions", supported).with(
            "capabilities",
            capabilities,
        ).with("ttlMs", JsonValue::from_u64(DISCOVERY_TTL_MILLISECONDS)).with(
            "cacheScope",
            JsonValue::string("public"),
        );
        assert(o@ =~= seq![
            ("supportedVersions"@, sv),
            ("capabilities"@, cv),
            ("ttlMs"@, int_json(3_600_000)),
            ("cacheScope"@, jstr("public"@)),
        ]);
        Ok(complete_result(o, ProtocolEra::Current))
    }

    fn ping(&self, params: Option<&JsonValue>) -> (result: Result<JsonValue, RpcError>)
        ensures
            rpc_json_result(result) == ping_json(self.legacy_initialized(), opt_json(params)),
    {
        let era = self.protocol_era(params)?;
        let o = JsonObject::new();
        assert(o@ =~= seq![]);
        Ok(complete_result(o, era))
    }

    fn list_tools(&self, params: Option<&JsonValue>) -> (result: Result<JsonValue, RpcError>)
        ensures
            rpc_json_result(result) == list_tools_json(self.legacy_initialized(), opt_json(params)),
    {
        let era = self.protocol_era(params)?;
        match params {
            Some(p) => {
                if !p.is_object() {
                    return Err(RpcError::invalid_params("params must be an object."));
                }
                if p.get("cursor").is_some() {
                    return Err(
                        RpcError::invalid_params(
                            "This server does not issue or accept pagination cursors.",
                        ),
                    );
                }
                let accepted: [&str; 1] = ["_meta"];
                proof {
                    assert(str_views(accepted@) =~= seq!["_meta"@]);
                }
                reject_unknown_fields(p, &accepted)?;
            },
            None => {},
        }
        let definitions = tool_definitions();
        let ghost dv = definitions@;
        let o = JsonObject::new().with("tools", definitions);
        match era {
            ProtocolEra::Current => {
                let o = o.with("ttlMs", JsonValue::from_u64(DISCOVERY_TTL_MILLISECONDS)).with(
                    "cacheScope",
                    JsonValue::string("public"),
                );
                assert(o@ =~= seq![
                    ("tools"@, dv),
                    ("ttlMs"@, int_json(3_600_000)),
                    ("cacheScope"@, jstr("public"@)),
                ]);
                Ok(complete_result(o, era))
            },
            ProtocolEra::Legacy => {
                assert(o@ =~= seq![("tools"@, dv)]);
                Ok(complete_result(o, era))
            },
        }
    }

    fn call_tool(&self, params: Option<&JsonValue>) -> (call: Result<
        (ProtocolEra, ToolRequest),
        RpcError,
    >)
        ensures
            match (call, call_tool_spec(self.legacy_initialized(), opt_json(params))) {
                (Ok((era, request)), Ok((e, r))) => era == e && request@ == r,
                (Err(x), Err(y)) => x@ == y,
                _ => false,
            },
    {
        let era = self.protocol_era(params)?;
        let params = required_object(params)?;
        let accepted: [&str; 3] = ["name", "arguments", "_meta"];
        proof {
            assert(str_views(accepted@) =~= seq!["name"@, "arguments"@, "_meta"@]);
        }
        reject_unknown_fields(params, &accepted)?;
        let name = match params.get("name") {
            Some(v) => match v.as_str() {
                Some(t) => t,
                None => {
                    return Err(RpcError::invalid_params("name must be a string."));
                },
            },
            None => {
                return Err(RpcError::invalid_params("name must be a string."));
            },
        };
        let no_arguments = JsonObject::new().build();
        assert(no_arguments@ == obj(seq![])) by {
            assert(Seq::<(Seq<char>, Json)>::empty() =~= seq![]);
        }
        let arguments = match params.get("arguments") {
            Some(a) => {
                if a.is_object() {
                    a
                } else {
                    return Err(RpcError::invalid_params("arguments must be an object."));
                }
            },
            None => &no_arguments,
        };
        if str_equal(name, "list_projects") {
            let accepted: [&str; 0] = [];
            proof {
                assert(str_views(accepted@) =~= seq![]);
            }
            reject_unknown_fields(arguments, &accepted)?;
            Ok((era, ToolRequest::ListProjects))
        } else if str_equal(name, "get_project") {
            let accepted: [&str; 1] = ["project"];
            proof {
                assert(str_views(accepted@) =~= seq!["project"@]);
            }
            reject_unknown_fields(arguments, &accepted)?;
            let selector = optional_string(arguments, "project")?;
            let selector = match selector {
                Some(s) => Some(s.to_owned()),
                None => None,
            };
            Ok((era, ToolRequest::GetProject(selector)))
        } else {
            Err(RpcError::invalid_params("Unknown tool name."))
        }
    }
}

impl McpServer {
    fn handle_request(&mut self, method: &str, params: Option<&JsonValue>) -> (outcome: Result<
        Result<JsonValue, RpcError>,
        (ProtocolEra, ToolRequest),
    >)
        ensures
            ({
                let (after, expected) = request_outcome(
                    old(self).legacy_initialized(),
                    method@,
                    opt_json(params),
                );
                &&& final(self).legacy_initialized() == after
                &&& match (outcome, expected) {
                    (Ok(r), Outcome::Done(d)) => rpc_json_result(r) == d,
                    (Err((era, request)), Outcome::Tool(e, t)) => era == e && request@ == t,
                    _ => false,
                }
            }),
    {
        if str_equal(method, "initialize") {
            Ok(self.initialize(params))
        } else if str_equal(method, "server/discover") {
            Ok(self.discover(params))
        } else if str_equal(method, "ping") {
            Ok(self.ping(params))
        } else if str_equal(method, "tools/list") {
            Ok(self.list_tools(params))
        } else if str_equal(method, "tools/call") {
            match self.call_tool(params) {
                Ok(call) => Err(call),
                Err(e) => Ok(Err(e)),
            }
        } else {
            match self.protocol_era(params) {
                Err(e) => Ok(Err(e)),
                Ok(_) => Ok(Err(RpcError::method_not_found())),
            }
        }
    }

    /// Decides a JSON-RPC message: the response to send, nothing for a notification, or the
    /// tool call to run.
    pub fn handle_message(&mut self, message: &JsonValue) -> (reply: Reply)
        ensures
            (final(self).legacy_initialized(), reply@) == message_reply(
                old(self).legacy_initialized(),
                message@,
            ),
    {
        if !message.is_object() {
            return Reply::Respond(
                error_response(
                    JsonValue::Null,
                    RpcError::invalid_request("JSON-RPC messages must be objects."),
                ),
            );
        }
        let id = message.get("id");
        match id {
            Some(i) => {
                if RequestKey::from_value(i).is_none() {
                    return Reply::Respond(
                        error_response(
                            JsonValue::Null,
                            RpcError::invalid_request(
                                "JSON-RPC request IDs must be strings or numbers.",
                            ),
                        ),
                    );
                }
            },
            None => {},
        }
        let response_id = match id {
            Some(i) => i.duplicate(),
            None => JsonValue::Null,
        };
        let jsonrpc_ok = match message.get("jsonrpc") {
            Some(v) => match v.as_str() {
                Some(t) => str_equal(t, "2.0"),
                None => false,
            },
            None => false,
        };
        if !jsonrpc_ok {
            return Reply::Respond(
                error_response(
                    response_id,
                    RpcError::invalid_request("The jsonrpc field must be \"2.0\"."),
                ),
            );
        }
        let method = match message.get("method") {
            Some(v) => match v.as_str() {
                Some(t) => t,
                None => {
                    return Reply::Respond(
                        error_response(
                            response_id,
                            RpcError::invalid_request("JSON-RPC requests require a method."),
                        ),
                    );
                },
            },
            None => {
                return Reply::Respond(
                    error_response(
                        response_id,
                        RpcError::invalid_request("JSON-RPC requests require a method."),
                    ),
                );
            },
        };
        if id.is_none() {
            return Reply::Silent;
        }
        let params = message.get("params");
        match self.handle_request(method, params) {
            Ok(Ok(result)) => Reply::Respond(success_response(response_id, result)),
            Ok(Err(error)) => Reply::Respond(error_response(response_id, error)),
            Err((era, request)) => Reply::CallTool(ToolCall { id: response_id, era, request }),
        }
    }

    /// Answers a tool call from the account's projects, or from the error that fetching them
    /// gave.
    pub fn complete_tool_call(
        call: &ToolCall,
        projects: Result<Vec<Project>, ApplicationError>,
    ) -> (response: JsonValue)
        ensures
            response@ == tool_call_response(
                call.id@,
                call.era,
                call.request@,
                projects_result(projects),
            ),
    {
        let ghost fetched = projects_result(projects);
        let content: Result<JsonValue, ApplicationError> = match projects {
            Err(e) => Err(e),
            Ok(projects) => match &call.request {
                ToolRequest::ListProjects => {
                    let mut values: Vec<JsonValue> = Vec::new();
                    let mut i: usize = 0;
                    while i < projects.len()
                        invariant
                            i <= projects@.len(),
                            values@.len() == i,
                            forall|k: int|
                                0 <= k < i ==> json_of(#[trigger] values@[k]) == project_json(
                                    projects@[k]@,
                                ),
                        decreases projects.len() - i,
                    {
                        values.push(project_value(&projects[i]));
                        i = i + 1;
                    }
                    let list = JsonValue::array(values);
                    assert(item_views(values@) =~= project_views(projects@).map_values(
                        |p: ProjectView| project_json(p),
                    ));
                    Ok(JsonValue::object1("projects", list))
                },
                ToolRequest::GetProject(selector) => {
                    let wanted = match selector {
                        Some(s) => Some(s.as_str()),
                        None => None,
                    };
                    match resolve_project(projects.as_slice(), wanted) {
                        Ok(project) => Ok(JsonValue::object1("project", project_value(project))),
                        Err(e) => Err(e),
                    }
                },
            },
        };
        let result = match content {
            Ok(structured) => tool_result(structured, false, call.era),
            Err(e) => tool_result(error_content(e), true, call.era),
        };
        success_response(call.id.duplicate(), result)
    }
}

pub open spec fn rpc_json_result(r: Result<JsonValue, RpcError>) -> Result<Json, RpcErrorView> {
    match r {
        Ok(v) => Ok(json_of(v)),
        Err(e) => Err(e@),
    }
}

/// Whether `version` is one of the legacy protocol revisions.
fn is_legacy_version(version: &str) -> (legacy: bool)
    ensures
        legacy == legacy_versions().contains(version@),
{
    let found = str_equal(version, "2024-11-05") || str_equal(version, "2025-03-26") || str_equal(
        version,
        "2025-06-18",
    ) || str_equal(version, "2025-11-25");
    proof {
        if legacy_versions().contains(version@) {
            let i = choose|i: int| 0 <= i < legacy_versions().len() && legacy_versions()[i] == version@;
            assert(i == 0 || i == 1 || i == 2 || i == 3);
        }
        if found {
            if version@ == "2024-11-05"@ {
                assert(legacy_versions()[0] == version@);
            } else if version@ == "2025-03-26"@ {
                assert(legacy_versions()[1] == version@);
            } else if version@ == "2025-06-18"@ {
                assert(legacy_versions()[2] == version@);
            } else {
                assert(legacy_versions()[3] == version@);
            }
        }
    }
    found
}

// ---------------------------------------------------------------------------------------------
// Laws of the protocol
// ---------------------------------------------------------------------------------------------

proof fn lemma_envelope_id(id: Json, member: Seq<char>, value: Json)
    requires
        member != "id"@,
    ensures
        obj(seq![("jsonrpc"@, Json::Str("2.0"@)), ("id"@, id), (member, value)]).get("id"@) == Some(
            id,
        ),
{
    reveal_strlit("jsonrpc");
    reveal_strlit("id");
    let pairs = seq![("jsonrpc"@, Json::Str("2.0"@)), ("id"@, id), (member, value)];
    let first = crate::json::insert_all(pairs.drop_last().drop_last());
    let second = crate::json::insert_all(pairs.drop_last());
    assert(pairs.drop_last().drop_last().drop_last() =~= Seq::<(Seq<char>, Json)>::empty());
    assert(pairs.drop_last().drop_last() =~= seq![("jsonrpc"@, Json::Str("2.0"@))]);
    assert(pairs.drop_last() =~= seq![("jsonrpc"@, Json::Str("2.0"@)), ("id"@, id)]);
    assert(second == crate::json::stored(first, "id"@, id));
    lemma_insert_then_lookup(first, "id"@, id, member);
    lemma_insert_then_lookup(second, member, value, "id"@);
}

/// Every JSON-RPC response, successful or not, carries the ID it was given.
pub proof fn lemma_responses_carry_their_id(id: Json, result: Json, error: RpcErrorView)
    ensures
        success_response_json(id, result).get("id"@) == Some(id),
        error_response_json(id, error).get("id"@) == Some(id),
{
    reveal_strlit("result");
    reveal_strlit("error");
    reveal_strlit("id");
    assert("result"@.len() != "id"@.len());
    assert("error"@.len() != "id"@.len());
    lemma_envelope_id(id, "result"@, result);
    lemma_envelope_id(id, "error"@, error_object(error));
}

/// A message whose ID is neither a string nor a number is answered with an invalid-request
/// error that carries a null ID; it never starts a tool call and leaves the server as it was.
pub proof fn lemma_invalid_ids_are_rejected(legacy_initialized: bool, message: Json)
    requires
        message.is_object(),
        message.get("id"@) is Some,
        request_key_of(message.get("id"@)->0) is None,
    ensures
        message_reply(legacy_initialized, message) == (
            legacy_initialized,
            ReplyView::Respond(
                error_response_json(
                    Json::Null,
                    invalid_request_error("JSON-RPC request IDs must be strings or numbers."@),
                ),
            ),
        ),
{
}

/// A well-formed notification (no ID, `"jsonrpc": "2.0"` and a string method) gets no reply,
/// whatever its method, and leaves the server as it was.
pub proof fn lemma_notifications_are_silent(legacy_initialized: bool, message: Json)
    requires
        message.is_object(),
        message.get("id"@) is None,
        string_member(message, "jsonrpc"@) == Some("2.0"@),
        string_member(message, "method"@) is Some,
    ensures
        message_reply(legacy_initialized, message) == (legacy_initialized, ReplyView::Silent),
{
}

/// A tool call is started only for a `tools/call` request whose ID is a string or a number,
/// and the call answers to that ID.
pub proof fn lemma_tool_calls_need_a_valid_request(legacy_initialized: bool, message: Json)
    requires
        message_reply(legacy_initialized, message).1 is CallTool,
    ensures
        message.is_object(),
        message.get("id"@) is Some,
        request_key_of(message.get("id"@)->0) is Some,
        string_member(message, "method"@) == Some("tools/call"@),
        message_reply(legacy_initialized, message).1->CallTool_0 == message.get("id"@)->0,
{
    reveal_strlit("tools/call");
    reveal_strlit("initialize");
    reveal_strlit("server/discover");
    reveal_strlit("ping");
    reveal_strlit("tools/list");
}

/// Legacy initialization is never undone, and only a successful `initialize` request with an
/// ID performs it.
pub proof fn lemma_initialization_is_monotonic(legacy_initialized: bool, message: Json)
    ensures
        legacy_initialized ==> message_reply(legacy_initialized, message).0,
        message_reply(legacy_initialized, message).0 != legacy_initialized ==> {
            &&& message.get("id"@) is Some
            &&& string_member(message, "method"@) == Some("initialize"@)
            &&& initialize_json(message.get("params"@)) is Ok
        },
{
}

/// Every response to a request with a string or number ID carries that ID, and a tool call's
/// response carries the ID of its request.
pub proof fn lemma_replies_answer_the_request(legacy_initialized: bool, message: Json)
    requires
        message.is_object(),
        message.get("id"@) is Some,
        request_key_of(message.get("id"@)->0) is Some,
    ensures
        message_reply(legacy_initialized, message).1 matches ReplyView::Respond(response)
            ==> response.get("id"@) == Some(message.get("id"@)->0),
        message_reply(legacy_initialized, message).1 matches ReplyView::CallTool(id, _, _)
            ==> id == message.get("id"@)->0,
{
    let id = message.get("id"@)->0;
    lemma_responses_carry_their_id(id, Json::Null, invalid_request_error(""@));
    let reply = message_reply(legacy_initialized, message).1;
    if let ReplyView::Respond(response) = reply {
        if string_member(message, "jsonrpc"@) != Some("2.0"@) {
            lemma_responses_carry_their_id(
                id,
                Json::Null,
                invalid_request_error("The jsonrpc field must be \"2.0\"."@),
            );
        } else if string_member(message, "method"@) is None {
            lemma_responses_carry_their_id(
                id,
                Json::Null,
                invalid_request_error("JSON-RPC requests require a method."@),
            );
        } else {
            let (_, outcome) = request_outcome(
                legacy_initialized,
                string_member(message, "method"@)->0,
                message.get("params"@),
            );
            match outcome {
                Outcome::Done(Ok(result)) => {
                    lemma_responses_carry_their_id(id, result, invalid_request_error(""@));
                },
                Outcome::Done(Err(e)) => {
                    lemma_responses_carry_their_id(id, Json::Null, e);
                },
                Outcome::Tool(_, _) => {},
            }
        }
    }
}

/// The response to a tool call carries the ID of its request, whatever came of fetching the
/// projects.
pub proof fn lemma_tool_responses_answer_the_call(
    id: Json,
    era: ProtocolEra,
    request: ToolRequestView,
    projects: Result<Seq<ProjectView>, ApplicationError>,
)
    ensures
        tool_call_response(id, era, request, projects).get("id"@) == Some(id),
{
    let result = match tool_content(request, projects) {
        Ok(content) => tool_result_json(content, false, era),
        Err(e) => tool_result_json(error_content_json(e), true, era),
    };
    lemma_responses_carry_their_id(id, result, invalid_request_error(""@));
}

/// The keys of a result document, by protocol generation.
proof fn lemma_result_keys_differ()
    ensures
        "content"@ != "structuredContent"@,
        "content"@ != "isError"@,
        "structuredContent"@ != "isError"@,
        "resultType"@ != "content"@,
        "resultType"@ != "structuredContent"@,
        "resultType"@ != "isError"@,
        "_meta"@ != "content"@,
        "_meta"@ != "structuredContent"@,
        "_meta"@ != "isError"@,
        "tools"@ != "ttlMs"@,
        "tools"@ != "cacheScope"@,
        "tools"@ != "resultType"@,
        "tools"@ != "_meta"@,
        "ttlMs"@ != "cacheScope"@,
        "ttlMs"@ != "resultType"@,
        "ttlMs"@ != "_meta"@,
        "cacheScope"@ != "resultType"@,
        "cacheScope"@ != "_meta"@,
        "resultType"@ != "_meta"@,
{
    reveal_strlit("content");
    reveal_strlit("structuredContent");
    reveal_strlit("isError");
    reveal_strlit("resultType");
    reveal_strlit("_meta");
    reveal_strlit("tools");
    reveal_strlit("ttlMs");
    reveal_strlit("cacheScope");
    assert("content"@.len() != "structuredContent"@.len());
    assert("content"@[0] != "isError"@[0]);
    assert("structuredContent"@.len() != "isError"@.len());
    assert("resultType"@.len() != "content"@.len());
    assert("resultType"@.len() != "structuredContent"@.len());
    assert("resultType"@.len() != "isError"@.len());
    assert("_meta"@.len() != "content"@.len());
    assert("_meta"@.len() != "structuredContent"@.len());
    assert("_meta"@.len() != "isError"@.len());
    assert("tools"@[1] != "ttlMs"@[1]);
    assert("tools"@.len() != "cacheScope"@.len());
    assert("tools"@.len() != "resultType"@.len());
    assert("tools"@[0] != "_meta"@[0]);
    assert("ttlMs"@.len() != "cacheScope"@.len());
    assert("ttlMs"@.len() != "resultType"@.len());
    assert("ttlMs"@[0] != "_meta"@[0]);
    assert("cacheScope"@[0] != "resultType"@[0]);
    assert("cacheScope"@.len() != "_meta"@.len());
    assert("resultType"@.len() != "_meta"@.len());
}

/// A tool result carries its structured content, the JSON text of that same content as its
/// text content, and the error flag it was given, in either protocol generation.
pub proof fn lemma_tool_results_match_their_text(structured: Json, is_error: bool, era: ProtocolEra)
    ensures
        tool_result_json(structured, is_error, era).get("structuredContent"@) == Some(structured),
        tool_result_json(structured, is_error, era).get("isError"@) == Some(Json::Bool(is_error)),
        tool_result_json(structured, is_error, era).get("content"@) == Some(
            Json::Array(
                seq![obj(seq![("type"@, jstr("text"@)), ("text"@, jstr(serialized(structured)))])],
            ),
        ),
{
    lemma_result_keys_differ();
    let base = seq![
        (
            "content"@,
            Json::Array(
                seq![obj(seq![("type"@, jstr("text"@)), ("text"@, jstr(serialized(structured)))])],
            ),
        ),
        ("structuredContent"@, structured),
        ("isError"@, Json::Bool(is_error)),
    ];
    let pairs = match era {
        ProtocolEra::Current => base.push(("resultType"@, jstr("complete"@))).push(
            ("_meta"@, obj(seq![("io.modelcontextprotocol/serverInfo"@, server_info_json())])),
        ),
        ProtocolEra::Legacy => base,
    };
    assert(tool_result_json(structured, is_error, era) == obj(pairs));
    lemma_object_reads_last_write(pairs, "structuredContent"@);
    lemma_object_reads_last_write(pairs, "isError"@);
    lemma_object_reads_last_write(pairs, "content"@);
    reveal_with_fuel(last_stored, 6);
}

/// Current-protocol tool discovery completes its result and marks the catalog publicly
/// cacheable for one hour; legacy tool discovery lists the same tools, with their root-object
/// output schemas, under `tools` and nothing else.
pub proof fn lemma_tool_discovery_metadata(legacy_initialized: bool, params: Option<Json>)
    requires
        list_tools_json(legacy_initialized, params) is Ok,
    ensures
        ({
            let result = list_tools_json(legacy_initialized, params)->Ok_0;
            &&& result.get("tools"@) == Some(tool_definitions_json())
            &&& era_of(legacy_initialized, params) == Ok::<ProtocolEra, RpcErrorView>(ProtocolEra::Current) ==> {
                &&& result.get("ttlMs"@) == Some(int_json(3_600_000))
                &&& result.get("cacheScope"@) == Some(jstr("public"@))
                &&& result.get("resultType"@) == Some(jstr("complete"@))
            }
            &&& era_of(legacy_initialized, params) == Ok::<ProtocolEra, RpcErrorView>(ProtocolEra::Legacy) ==> {
                &&& result == obj(seq![("tools"@, tool_definitions_json())])
                &&& result.get("_meta"@) is None
                &&& result.get("ttlMs"@) is None
                &&& result.get("cacheScope"@) is None
                &&& result.get("resultType"@) is None
            }
        }),
{
    lemma_result_keys_differ();
    let era = era_of(legacy_initialized, params)->Ok_0;
    let base = if era == ProtocolEra::Current {
        seq![
            ("tools"@, tool_definitions_json()),
            ("ttlMs"@, int_json(3_600_000)),
            ("cacheScope"@, jstr("public"@)),
        ]
    } else {
        seq![("tools"@, tool_definitions_json())]
    };
    let pairs = match era {
        ProtocolEra::Current => base.push(("resultType"@, jstr("complete"@))).push(
            ("_meta"@, obj(seq![("io.modelcontextprotocol/serverInfo"@, server_info_json())])),
        ),
        ProtocolEra::Legacy => base,
    };
    assert(list_tools_json(legacy_initialized, params)->Ok_0 == obj(pairs));
    lemma_object_reads_last_write(pairs, "tools"@);
    lemma_object_reads_last_write(pairs, "ttlMs"@);
    lemma_object_reads_last_write(pairs, "cacheScope"@);
    lemma_object_reads_last_write(pairs, "resultType"@);
    lemma_object_reads_last_write(pairs, "_meta"@);
    reveal_with_fuel(last_stored, 6);
}

// ---------------------------------------------------------------------------------------------
// Laws of the project tools
// ---------------------------------------------------------------------------------------------

/// The member `key` of a document, when there is a document and it is an object with that key.
pub open spec fn member(document: Option<Json>, key: Seq<char>) -> Option<Json> {
    match document {
        Some(d) => d.get(key),
        None => None,
    }
}

/// A tool response that reports `project` (by UUID and name) as its unflagged result.
pub open spec fn answers_with_project(response: Json, project: ProjectView) -> bool {
    let result = member(Some(response), "result"@);
    let reported = member(member(result, "structuredContent"@), "project"@);
    &&& member(result, "isError"@) == Some(Json::Bool(false))
    &&& member(reported, "uuid"@) == Some(Json::Str(project.uuid))
    &&& member(reported, "name"@) == Some(Json::Str(project.name))
}

/// A tool response flagged as an error whose structured content carries the error `code`.
pub open spec fn answers_with_error(response: Json, code: Seq<char>) -> bool {
    let result = member(Some(response), "result"@);
    &&& member(result, "isError"@) == Some(Json::Bool(true))
    &&& member(member(member(result, "structuredContent"@), "error"@), "code"@) == Some(
        Json::Str(code),
    )
}

proof fn lemma_last_pair_read(pairs: Seq<(Seq<char>, Json)>, key: Seq<char>, value: Json)
    requires
        pairs.len() > 0,
        pairs.last() == (key, value),
    ensures
        obj(pairs).get(key) == Some(value),
{
    lemma_object_reads_last_write(pairs, key);
}

/// The result, structured content and error flag of a tool response.
proof fn lemma_tool_response_reads(id: Json, era: ProtocolEra, content: Json, is_error: bool)
    ensures
        member(Some(success_response_json(id, tool_result_json(content, is_error, era))), "result"@)
            == Some(tool_result_json(content, is_error, era)),
        member(Some(tool_result_json(content, is_error, era)), "structuredContent"@) == Some(
            content,
        ),
        member(Some(tool_result_json(content, is_error, era)), "isError"@) == Some(
            Json::Bool(is_error),
        ),
{
    lemma_last_pair_read(
        seq![
            ("jsonrpc"@, Json::Str("2.0"@)),
            ("id"@, id),
            ("result"@, tool_result_json(content, is_error, era)),
        ],
        "result"@,
        tool_result_json(content, is_error, era),
    );
    lemma_tool_results_match_their_text(content, is_error, era);
}

/// A reported project reads back as its UUID and name.
proof fn lemma_project_reads(project: ProjectView)
    ensures
        project_json(project).get("uuid"@) == Some(Json::Str(project.uuid)),
        project_json(project).get("name"@) == Some(Json::Str(project.name)),
{
    reveal_strlit("uuid");
    reveal_strlit("name");
    assert("uuid"@[0] != "name"@[0]);
    let pairs = seq![("uuid"@, jstr(project.uuid)), ("name"@, jstr(project.name))];
    lemma_object_reads_last_write(pairs, "uuid"@);
    lemma_object_reads_last_write(pairs, "name"@);
    assert(pairs.drop_last() =~= seq![("uuid"@, jstr(project.uuid))]);
    reveal_with_fuel(last_stored, 3);
}

/// The structured content of a failed call reads back as the error's code.
proof fn lemma_error_content_reads(error: ApplicationError)
    ensures
        member(member(Some(error_content_json(error)), "error"@), "code"@) == Some(
            Json::Str(error_code(error)),
        ),
{
    reveal_strlit("code");
    reveal_strlit("message");
    assert("code"@.len() != "message"@.len());
    let inner = seq![("code"@, jstr(error_code(error))), ("message"@, jstr(error_message(error)))];
    lemma_last_pair_read(seq![("error"@, obj(inner))], "error"@, obj(inner));
    lemma_object_reads_last_write(inner, "code"@);
    assert(inner.drop_last() =~= seq![("code"@, jstr(error_code(error)))]);
    reveal_with_fuel(last_stored, 3);
}

/// A project picked by a `get_project` call is reported by its UUID and name.
proof fn lemma_picked_project_reported(id: Json, era: ProtocolEra, project: ProjectView)
    ensures
        answers_with_project(
            success_response_json(
                id,
                tool_result_json(obj(seq![("project"@, project_json(project))]), false, era),
            ),
            project,
        ),
{
    let content = obj(seq![("project"@, project_json(project))]);
    lemma_tool_response_reads(id, era, content, false);
    lemma_last_pair_read(seq![("project"@, project_json(project))], "project"@, project_json(project));
    lemma_project_reads(project);
}

/// A failed call is reported, flagged as an error, with its error's code.
proof fn lemma_failure_reported(id: Json, era: ProtocolEra, error: ApplicationError)
    ensures
        answers_with_error(
            success_response_json(id, tool_result_json(error_content_json(error), true, era)),
            error_code(error),
        ),
{
    lemma_tool_response_reads(id, era, error_content_json(error), true);
    lemma_error_content_reads(error);
}

/// `list_projects` reports every fetched project, in order, each by its own UUID and name,
/// as an unflagged result.
pub proof fn lemma_list_projects_reports_every_project(
    id: Json,
    era: ProtocolEra,
    projects: Seq<ProjectView>,
)
    ensures
        ({
            let response = tool_call_response(id, era, ToolRequestView::ListProjects, Ok(projects));
            let result = member(Some(response), "result"@);
            &&& member(result, "isError"@) == Some(Json::Bool(false))
            &&& member(member(result, "structuredContent"@), "projects"@) matches Some(
                Json::Array(items),
            )
            &&& items.len() == projects.len()
            &&& forall|k: int|
                0 <= k < projects.len() ==> {
                    &&& member(Some(#[trigger] items[k]), "uuid"@) == Some(
                        Json::Str(projects[k].uuid),
                    )
                    &&& member(Some(items[k]), "name"@) == Some(Json::Str(projects[k].name))
                }
        }),
{
    let items = projects.map_values(|p: ProjectView| project_json(p));
    let content = obj(seq![("projects"@, Json::Array(items))]);
    lemma_tool_response_reads(id, era, content, false);
    lemma_last_pair_read(seq![("projects"@, Json::Array(items))], "projects"@, Json::Array(items));
    assert forall|k: int| 0 <= k < projects.len() implies {
        &&& member(Some(#[trigger] items[k]), "uuid"@) == Some(Json::Str(projects[k].uuid))
        &&& member(Some(items[k]), "name"@) == Some(Json::Str(projects[k].name))
    } by {
        lemma_project_reads(projects[k]);
    }
}

/// When fetching the projects fails, either tool answers with a flagged error carrying the
/// failure's code.
pub proof fn lemma_fetch_failures_are_reported(
    id: Json,
    era: ProtocolEra,
    request: ToolRequestView,
    error: ApplicationError,
)
    ensures
        answers_with_error(tool_call_response(id, era, request, Err(error)), error_code(error)),
{
    lemma_failure_reported(id, era, error);
}

/// `get_project` without a selector reports the project only when it is the only one; with
/// none it reports `project_not_found`, with two or more `project_ambiguous`.
pub proof fn lemma_get_project_without_selector(id: Json, era: ProtocolEra, projects: Seq<ProjectView>)
    ensures
        ({
            let response = tool_call_response(id, era, ToolRequestView::GetProject(None), Ok(projects));
            &&& projects.len() == 1 ==> answers_with_project(response, projects[0])
            &&& projects.len() == 0 ==> answers_with_error(response, "project_not_found"@)
            &&& projects.len() >= 2 ==> answers_with_error(response, "project_ambiguous"@)
        }),
{
    if projects.len() == 1 {
        lemma_picked_project_reported(id, era, projects[0]);
    } else if projects.len() == 0 {
        lemma_failure_reported(id, era, ApplicationError::ProjectNotFound);
    } else {
        lemma_failure_reported(id, era, ApplicationError::ProjectAmbiguous);
    }
}

/// `get_project` with a selector that is some project's UUID reports the first project with
/// that UUID, whatever the names.
pub proof fn lemma_get_project_by_uuid(
    id: Json,
    era: ProtocolEra,
    projects: Seq<ProjectView>,
    selector: Seq<char>,
    i: int,
)
    requires
        0 <= i < projects.len(),
        projects[i].uuid == selector,
        forall|j: int| 0 <= j < i ==> projects[j].uuid != selector,
    ensures
        answers_with_project(
            tool_call_response(id, era, ToolRequestView::GetProject(Some(selector)), Ok(projects)),
            projects[i],
        ),
{
    assert(first_uuid_match(projects, selector, i));
    assert(has_uuid(projects, selector));
    let k = choose|k: int| first_uuid_match(projects, selector, k);
    if k < i {
    } else if k > i {
        assert(projects[i].uuid == selector);
    }
    lemma_picked_project_reported(id, era, projects[i]);
}

/// `get_project` with a selector that is no project's UUID reports the project with that
/// exact name when exactly one has it; `project_ambiguous` when two or more have it; and
/// `project_not_found` when none has it.
pub proof fn lemma_get_project_by_name(
    id: Json,
    era: ProtocolEra,
    projects: Seq<ProjectView>,
    selector: Seq<char>,
)
    requires
        forall|j: int| 0 <= j < projects.len() ==> projects[j].uuid != selector,
    ensures
        ({
            let response = tool_call_response(
                id,
                era,
                ToolRequestView::GetProject(Some(selector)),
                Ok(projects),
            );
            &&& forall|i: int|
                0 <= i < projects.len() && projects[i].name == selector && (forall|j: int|
                    0 <= j < projects.len() && j != i ==> projects[j].name != selector) ==> answers_with_project(
                    response,
                    #[trigger] projects[i],
                )
            &&& (forall|j: int| 0 <= j < projects.len() ==> projects[j].name != selector)
                ==> answers_with_error(response, "project_not_found"@)
            &&& (exists|a: int, b: int|
                0 <= a < b < projects.len() && projects[a].name == selector && projects[b].name
                    == selector) ==> answers_with_error(response, "project_ambiguous"@)
        }),
{
    let response = tool_call_response(
        id,
        era,
        ToolRequestView::GetProject(Some(selector)),
        Ok(projects),
    );
    assert(!has_uuid(projects, selector));
    assert forall|i: int|
        0 <= i < projects.len() && projects[i].name == selector && (forall|j: int|
            0 <= j < projects.len() && j != i ==> projects[j].name != selector) implies answers_with_project(
        response,
        #[trigger] projects[i],
    ) by {
        assert(only_name_match(projects, selector, i));
        assert(has_name(projects, selector));
        let k = choose|k: int| only_name_match(projects, selector, k);
        if k != i {
            assert(projects[i].name == selector);
        }
        lemma_picked_project_reported(id, era, projects[i]);
    }
    if forall|j: int| 0 <= j < projects.len() ==> projects[j].name != selector {
        assert(!has_name(projects, selector));
        lemma_failure_reported(id, era, ApplicationError::ProjectNotFound);
    }
    if exists|a: int, b: int|
        0 <= a < b < projects.len() && projects[a].name == selector && projects[b].name == selector {
        let (a, b) = choose|a: int, b: int|
            0 <= a < b < projects.len() && projects[a].name == selector && projects[b].name
                == selector;
        assert(has_name(projects, selector));
        assert(!exists|i: int| only_name_match(projects, selector, i)) by {
            if exists|i: int| only_name_match(projects, selector, i) {
                let i = choose|i: int| only_name_match(projects, selector, i);
                if i == a {
                    assert(projects[b].name == selector);
                } else {
                    assert(projects[a].name == selector);
                }
            }
        }
        lemma_failure_reported(id, era, ApplicationError::ProjectAmbiguous);
    }
}

/// A `tools/call` request for `list_projects` whose `arguments` are absent, or an empty
/// object, is handed back as a `list_projects` call under its ID, in the request's protocol
/// generation; the server's state is unchanged. Absent arguments are no arguments.
pub proof fn lemma_list_projects_needs_no_arguments(
    legacy_initialized: bool,
    message: Json,
    params: Json,
    era: ProtocolEra,
)
    requires
        message.is_object(),
        message.get("jsonrpc"@) == Some(Json::Str("2.0"@)),
        message.get("id"@) is Some,
        request_key_of(message.get("id"@)->0) is Some,
        message.get("method"@) == Some(Json::Str("tools/call"@)),
        message.get("params"@) == Some(params),
        params.is_object(),
        params.get("name"@) == Some(Json::Str("list_projects"@)),
        forall|k: int|
            0 <= k < params.keys().len() ==> #[trigger] params.keys()[k] == "name"@
                || params.keys()[k] == "arguments"@ || params.keys()[k] == "_meta"@,
        params.get("arguments"@) is None || (params.get("arguments"@) matches Some(a)
            && a.is_object() && a.keys().len() == 0),
        era_of(legacy_initialized, Some(params)) == Ok::<ProtocolEra, RpcErrorView>(era),
    ensures
        message_reply(legacy_initialized, message) == (
            legacy_initialized,
            ReplyView::CallTool(message.get("id"@)->0, era, ToolRequestView::ListProjects),
        ),
{
    reveal_strlit("tools/call");
    reveal_strlit("initialize");
    reveal_strlit("server/discover");
    reveal_strlit("ping");
    reveal_strlit("tools/list");
    reveal_strlit("list_projects");
    reveal_strlit("get_project");
    assert("tools/call"@[0] != "initialize"@[0]);
    assert("tools/call"@[0] != "server/discover"@[0]);
    assert("tools/call"@.len() != "ping"@.len());
    assert("tools/call"@[6] != "tools/list"@[6]);
    assert("list_projects"@.len() != "get_project"@.len());
    let accepted = seq!["name"@, "arguments"@, "_meta"@];
    assert forall|k: int| 0 <= k < params.keys().len() implies accepted.contains(
        #[trigger] params.keys()[k],
    ) by {
        if params.keys()[k] == "name"@ {
            assert(accepted[0] == "name"@);
        } else if params.keys()[k] == "arguments"@ {
            assert(accepted[1] == "arguments"@);
        } else {
            assert(accepted[2] == "_meta"@);
        }
    }
    let arguments = match params.get("arguments"@) {
        Some(a) => a,
        None => obj(seq![]),
    };
    assert(tool_arguments(params) == Ok::<Json, RpcErrorView>(arguments));
    assert(arguments.keys().len() == 0);
    assert(keys_accepted(arguments, seq![]));
    assert(call_tool_spec(legacy_initialized, Some(params)) == Ok::<
        (ProtocolEra, ToolRequestView),
        RpcErrorView,
    >((era, ToolRequestView::ListProjects)));
}

/// A `tools/call` request whose `arguments` member is present but no object is refused with
/// an invalid-params error, once its protocol generation, its fields and its tool name check
/// out; the tool never runs.
pub proof fn lemma_non_object_arguments_are_refused(legacy_initialized: bool, params: Json)
    requires
        params.is_object(),
        era_of(legacy_initialized, Some(params)) is Ok,
        keys_accepted(params, seq!["name"@, "arguments"@, "_meta"@]),
        string_member(params, "name"@) is Some,
        params.get("arguments"@) matches Some(a) && !a.is_object(),
    ensures
        call_tool_spec(legacy_initialized, Some(params)) == Err::<
            (ProtocolEra, ToolRequestView),
            RpcErrorView,
        >(invalid_params_error("arguments must be an object."@)),
{
}

} // verus!
