//! The MCP server for the research vault: which tools it offers, what each message
//! asks for, and what is answered.

use vstd::prelude::*;
use vstd::string::*;
use vstd::utf8::*;

use crate::drop_server::VERSION;
use crate::extract::glue;
use crate::files;
use crate::ids;
use crate::job;
use crate::job::{IngestJob, JobStatus, JobView};
use crate::json;
use crate::json::{Json, JsonView};
use crate::numbers;
use crate::order;
use crate::paths;
use crate::queue;
use crate::queue::JobQueue;
use crate::search;
use crate::split;
use crate::text;
use crate::vault;
use crate::vault::{Entry, Hit, VaultPaths};

verus! {

/// A tool with what it is to work on.
#[derive(Debug, Clone)]
pub enum Tool {
    ListProjects,
    ListPendingJobs,
    /// Query and limit.
    SearchNotes(String, u64),
    /// Path below the vault.
    ReadNote(String),
    /// Path below the vault, and contents.
    WriteNote(String, String),
    ListIncoming,
    VaultInfo,
    /// Identifier of a job.
    ReadExtract(String),
}

/// What a [`Tool`] holds.
pub enum ToolView {
    ListProjects,
    ListPendingJobs,
    SearchNotes(Seq<char>, u64),
    ReadNote(Seq<char>),
    WriteNote(Seq<char>, Seq<char>),
    ListIncoming,
    VaultInfo,
    ReadExtract(Seq<char>),
}

impl View for Tool {
    type V = ToolView;

    open spec fn view(&self) -> ToolView {
        match *self {
            Tool::ListProjects => ToolView::ListProjects,
            Tool::ListPendingJobs => ToolView::ListPendingJobs,
            Tool::SearchNotes(q, n) => ToolView::SearchNotes(q@, n),
            Tool::ReadNote(p) => ToolView::ReadNote(p@),
            Tool::WriteNote(p, c) => ToolView::WriteNote(p@, c@),
            Tool::ListIncoming => ToolView::ListIncoming,
            Tool::VaultInfo => ToolView::VaultInfo,
            Tool::ReadExtract(id) => ToolView::ReadExtract(id@),
        }
    }
}

/// The text of an argument.
pub open spec fn argument(params: Json, key: Seq<char>) -> Option<Seq<char>> {
    match params.field("arguments"@) {
        Some(a) => a.field_text(key),
        None => None,
    }
}

/// The limit of a search, where it is given as a whole number that is not negative.
pub open spec fn limit_argument(params: Json) -> u64 {
    match params.field("arguments"@) {
        Some(a) => match a.field("limit"@) {
            Some(Json::Number(s)) => match numbers::parsed_u64(s@) {
                Some(n) => n,
                None => 20,
            },
            _ => 20,
        },
        None => 20,
    }
}

/// The tool that is called, or why the call is refused.
pub open spec fn called_tool(params: Json) -> Result<ToolView, Seq<char>> {
    match params.field_text("name"@) {
        None => Err("missing tool name"@),
        Some(name) => if name == "list_projects"@ {
            Ok(ToolView::ListProjects)
        } else if name == "list_pending_jobs"@ {
            Ok(ToolView::ListPendingJobs)
        } else if name == "search_notes"@ {
            match argument(params, "query"@) {
                Some(q) => Ok(ToolView::SearchNotes(q, limit_argument(params))),
                None => Err("query required"@),
            }
        } else if name == "read_note"@ {
            match argument(params, "path"@) {
                Some(p) => Ok(ToolView::ReadNote(p)),
                None => Err("path required"@),
            }
        } else if name == "write_note"@ {
            match (argument(params, "path"@), argument(params, "content"@)) {
                (None, _) => Err("path required"@),
                (Some(_), None) => Err("content required"@),
                (Some(p), Some(c)) => Ok(ToolView::WriteNote(p, c)),
            }
        } else if name == "list_incoming"@ {
            Ok(ToolView::ListIncoming)
        } else if name == "vault_info"@ {
            Ok(ToolView::VaultInfo)
        } else if name == "read_extract"@ {
            match argument(params, "job_id"@) {
                Some(id) => Ok(ToolView::ReadExtract(id)),
                None => Err("job_id required"@),
            }
        } else {
            Err("unknown tool: "@ + name)
        },
    }
}

/// The text of an argument.
fn arg<'a>(params: &'a Json, key: &str) -> (r: Option<&'a str>)
    ensures
        text::opt_str(r) == argument(*params, key@),
{
    match params.get("arguments") {
        Some(a) => a.get_text(key),
        None => None,
    }
}

fn limit_arg(params: &Json) -> (r: u64)
    ensures
        r == limit_argument(*params),
{
    match params.get("arguments") {
        Some(a) => match a.get("limit") {
            Some(Json::Number(s)) => match numbers::parse_u64(s.as_str()) {
                Some(n) => n,
                None => 20,
            },
            _ => 20,
        },
        None => 20,
    }
}

/// The tool that is called, or why the call is refused.
pub fn tools_call(params: &Json) -> (r: Result<Tool, String>)
    ensures
        match r {
            Ok(t) => called_tool(*params) == Ok::<ToolView, Seq<char>>(t@),
            Err(e) => called_tool(*params) == Err::<ToolView, Seq<char>>(e@),
        },
{
    let name = match params.get_text("name") {
        Some(n) => n,
        None => {
            return Err("missing tool name".to_owned());
        },
    };
    if text::same(name, "list_projects") {
        Ok(Tool::ListProjects)
    } else if text::same(name, "list_pending_jobs") {
        Ok(Tool::ListPendingJobs)
    } else if text::same(name, "search_notes") {
        match arg(params, "query") {
            Some(q) => Ok(Tool::SearchNotes(q.to_owned(), limit_arg(params))),
            None => Err("query required".to_owned()),
        }
    } else if text::same(name, "read_note") {
        match arg(params, "path") {
            Some(p) => Ok(Tool::ReadNote(p.to_owned())),
            None => Err("path required".to_owned()),
        }
    } else if text::same(name, "write_note") {
        let path = arg(params, "path");
        let content = arg(params, "content");
        match path {
            None => Err("path required".to_owned()),
            Some(p) => match content {
                None => Err("content required".to_owned()),
                Some(c) => Ok(Tool::WriteNote(p.to_owned(), c.to_owned())),
            },
        }
    } else if text::same(name, "list_incoming") {
        Ok(Tool::ListIncoming)
    } else if text::same(name, "vault_info") {
        Ok(Tool::VaultInfo)
    } else if text::same(name, "read_extract") {
        match arg(params, "job_id") {
            Some(id) => Ok(Tool::ReadExtract(id.to_owned())),
            None => Err("job_id required".to_owned()),
        }
    } else {
        Err(glue("unknown tool: ", name))
    }
}

/// A value of the given type.
pub open spec fn typed(t: Seq<char>) -> JsonView {
    JsonView::Object(seq![("type"@, JsonView::Text(t))])
}

/// An object without described fields.
pub open spec fn bare_schema() -> JsonView {
    JsonView::Object(
        seq![
            ("type"@, JsonView::Text("object"@)),
            ("properties"@, JsonView::Object(Seq::empty())),
        ],
    )
}

/// An object with these fields, of which some are required.
pub open spec fn schema(props: Seq<(Seq<char>, JsonView)>, required: Seq<JsonView>) -> JsonView {
    JsonView::Object(
        seq![
            ("type"@, JsonView::Text("object"@)),
            ("properties"@, JsonView::Object(props)),
            ("required"@, JsonView::List(required)),
        ],
    )
}

/// A tool as it is offered.
pub open spec fn tool_view(name: Seq<char>, description: Seq<char>, input: JsonView) -> JsonView {
    JsonView::Object(
        seq![
            ("name"@, JsonView::Text(name)),
            ("description"@, JsonView::Text(description)),
            ("inputSchema"@, input),
        ],
    )
}

/// The tools as they are offered.
pub open spec fn tool_views() -> Seq<JsonView> {
    seq![
        tool_view(
            "list_projects"@,
            "List research project slugs under wiki/projects."@,
            bare_schema(),
        ),
        tool_view("list_pending_jobs"@, "List ingest jobs that are not done."@, bare_schema()),
        tool_view(
            "search_notes"@,
            "Search vault Markdown notes for a query string."@,
            schema(
                seq![
                    ("query"@, typed("string"@)),
                    (
                        "limit"@,
                        JsonView::Object(
                            seq![
                                ("type"@, JsonView::Text("integer"@)),
                                ("default"@, JsonView::Number(text::decimal_of(20))),
                            ],
                        ),
                    ),
                ],
                seq![JsonView::Text("query"@)],
            ),
        ),
        tool_view(
            "read_note"@,
            "Read a note path relative to the vault root."@,
            schema(
                seq![
                    (
                        "path"@,
                        JsonView::Object(
                            seq![
                                ("type"@, JsonView::Text("string"@)),
                                ("description"@, JsonView::Text("Relative path under the vault"@)),
                            ],
                        ),
                    ),
                ],
                seq![JsonView::Text("path"@)],
            ),
        ),
        tool_view(
            "write_note"@,
            "Write or overwrite a Markdown note relative to the vault root."@,
            schema(
                seq![("path"@, typed("string"@)), ("content"@, typed("string"@))],
                seq![JsonView::Text("path"@), JsonView::Text("content"@)],
            ),
        ),
        tool_view("list_incoming"@, "List files waiting in raw/incoming."@, bare_schema()),
        tool_view("vault_info"@, "Return vault paths and counts."@, bare_schema()),
        tool_view(
            "read_extract"@,
            "Read the extract for a job id (raw/extracts/<id>.md)."@,
            schema(seq![("job_id"@, typed("string"@))], seq![JsonView::Text("job_id"@)]),
        ),
    ]
}

fn typed_value(t: &str) -> (r: Json)
    ensures
        r@ == typed(t@),
{
    let mut v: Vec<(String, Json)> = Vec::new();
    json::put(&mut v, "type", json::text(t));
    assert(json::fields_view(v@) == seq![("type"@, JsonView::Text(t@))]);
    json::object(v)
}

fn bare_schema_value() -> (r: Json)
    ensures
        r@ == bare_schema(),
{
    let empty: Vec<(String, Json)> = Vec::new();
    assert(json::fields_view(empty@) == Seq::<(Seq<char>, JsonView)>::empty());
    let mut v: Vec<(String, Json)> = Vec::new();
    json::put(&mut v, "type", json::text("object"));
    json::put(&mut v, "properties", json::object(empty));
    assert(json::fields_view(v@) == seq![
        ("type"@, JsonView::Text("object"@)),
        ("properties"@, JsonView::Object(Seq::empty())),
    ]);
    json::object(v)
}

fn schema_value(props: Vec<(String, Json)>, required: Vec<Json>) -> (r: Json)
    ensures
        r@ == schema(json::fields_view(props@), json::items_view(required@)),
{
    let ghost p = json::fields_view(props@);
    let ghost q = json::items_view(required@);
    let mut v: Vec<(String, Json)> = Vec::new();
    json::put(&mut v, "type", json::text("object"));
    json::put(&mut v, "properties", json::object(props));
    json::put(&mut v, "required", json::list(required));
    assert(json::fields_view(v@) == seq![
        ("type"@, JsonView::Text("object"@)),
        ("properties"@, JsonView::Object(p)),
        ("required"@, JsonView::List(q)),
    ]);
    json::object(v)
}

/// A tool as it is offered.
pub fn tool(name: &str, description: &str, input_schema: Json) -> (r: Json)
    ensures
        r@ == tool_view(name@, description@, input_schema@),
{
    let ghost s = input_schema@;
    let mut v: Vec<(String, Json)> = Vec::new();
    json::put(&mut v, "name", json::text(name));
    json::put(&mut v, "description", json::text(description));
    json::put(&mut v, "inputSchema", input_schema);
    assert(json::fields_view(v@) == seq![
        ("name"@, JsonView::Text(name@)),
        ("description"@, JsonView::Text(description@)),
        ("inputSchema"@, s),
    ]);
    json::object(v)
}

fn required_one(a: &str) -> (r: Vec<Json>)
    ensures
        json::items_view(r@) == seq![JsonView::Text(a@)],
{
    let mut v: Vec<Json> = Vec::new();
    v.push(json::text(a));
    assert(json::items_view(v@) == seq![JsonView::Text(a@)]);
    v
}

fn search_schema() -> (r: Json)
    ensures
        r@ == tool_views()[2]->Object_0[2].1,
{
    let mut limit: Vec<(String, Json)> = Vec::new();
    json::put(&mut limit, "type", json::text("integer"));
    json::put(&mut limit, "default", json::number(20));
    assert(json::fields_view(limit@) == seq![
        ("type"@, JsonView::Text("integer"@)),
        ("default"@, JsonView::Number(text::decimal_of(20))),
    ]);
    let ghost lv = json::fields_view(limit@);
    let mut props: Vec<(String, Json)> = Vec::new();
    json::put(&mut props, "query", typed_value("string"));
    json::put(&mut props, "limit", json::object(limit));
    assert(json::fields_view(props@) == seq![
        ("query"@, typed("string"@)),
        ("limit"@, JsonView::Object(lv)),
    ]);
    schema_value(props, required_one("query"))
}

fn read_note_schema() -> (r: Json)
    ensures
        r@ == tool_views()[3]->Object_0[2].1,
{
    let mut path: Vec<(String, Json)> = Vec::new();
    json::put(&mut path, "type", json::text("string"));
    json::put(&mut path, "description", json::text("Relative path under the vault"));
    assert(json::fields_view(path@) == seq![
        ("type"@, JsonView::Text("string"@)),
        ("description"@, JsonView::Text("Relative path under the vault"@)),
    ]);
    let ghost pv = json::fields_view(path@);
    let mut props: Vec<(String, Json)> = Vec::new();
    json::put(&mut props, "path", json::object(path));
    assert(json::fields_view(props@) == seq![("path"@, JsonView::Object(pv))]);
    schema_value(props, required_one("path"))
}

fn write_note_schema() -> (r: Json)
    ensures
        r@ == tool_views()[4]->Object_0[2].1,
{
    let mut props: Vec<(String, Json)> = Vec::new();
    json::put(&mut props, "path", typed_value("string"));
    json::put(&mut props, "content", typed_value("string"));
    assert(json::fields_view(props@) == seq![
        ("path"@, typed("string"@)),
        ("content"@, typed("string"@)),
    ]);
    let mut required: Vec<Json> = Vec::new();
    required.push(json::text("path"));
    required.push(json::text("content"));
    assert(json::items_view(required@) == seq![JsonView::Text("path"@), JsonView::Text("content"@)]);
    schema_value(props, required)
}

fn read_extract_schema() -> (r: Json)
    ensures
        r@ == tool_views()[7]->Object_0[2].1,
{
    let mut props: Vec<(String, Json)> = Vec::new();
    json::put(&mut props, "job_id", typed_value("string"));
    assert(json::fields_view(props@) == seq![("job_id"@, typed("string"@))]);
    schema_value(props, required_one("job_id"))
}

/// The tools as they are offered.
pub fn tool_defs() -> (r: Vec<Json>)
    ensures
        json::items_view(r@) == tool_views(),
{
    let mut v: Vec<Json> = Vec::new();
    v.push(
        tool(
            "list_projects",
            "List research project slugs under wiki/projects.",
            bare_schema_value(),
        ),
    );
    v.push(
        tool("list_pending_jobs", "List ingest jobs that are not done.", bare_schema_value()),
    );
    v.push(
        tool(
            "search_notes",
            "Search vault Markdown notes for a query string.",
            search_schema(),
        ),
    );
    v.push(
        tool("read_note", "Read a note path relative to the vault root.", read_note_schema()),
    );
    v.push(
        tool(
            "write_note",
            "Write or overwrite a Markdown note relative to the vault root.",
            write_note_schema(),
        ),
    );
    v.push(tool("list_incoming", "List files waiting in raw/incoming.", bare_schema_value()));
    v.push(tool("vault_info", "Return vault paths and counts.", bare_schema_value()));
    v.push(
        tool(
            "read_extract",
            "Read the extract for a job id (raw/extracts/<id>.md).",
            read_extract_schema(),
        ),
    );
    assert(json::items_view(v@) == tool_views());
    v
}

/// The identifier of a message, or null.
pub open spec fn message_id(msg: Json) -> JsonView {
    match msg.field("id"@) {
        Some(j) => j@,
        None => JsonView::Null,
    }
}

/// The message wants no answer.
pub open spec fn is_notification(msg: Json) -> bool {
    message_id(msg) is Null
}

/// The method of a message, or nothing.
pub open spec fn method_of(msg: Json) -> Seq<char> {
    match msg.field_text("method"@) {
        Some(m) => m,
        None => ""@,
    }
}

/// An answer with a result.
pub open spec fn result_reply(id: JsonView, result: JsonView) -> JsonView {
    JsonView::Object(
        seq![("jsonrpc"@, JsonView::Text("2.0"@)), ("id"@, id), ("result"@, result)],
    )
}

/// An answer with an error.
pub open spec fn error_reply(id: JsonView, code: Seq<char>, message: Seq<char>) -> JsonView {
    JsonView::Object(
        seq![
            ("jsonrpc"@, JsonView::Text("2.0"@)),
            ("id"@, id),
            (
                "error"@,
                JsonView::Object(
                    seq![
                        ("code"@, JsonView::Number(code)),
                        ("message"@, JsonView::Text(message)),
                    ],
                ),
            ),
        ],
    )
}

/// What is told of the server.
pub open spec fn server_view() -> JsonView {
    JsonView::Object(
        seq![
            ("protocolVersion"@, JsonView::Text("2024-11-05"@)),
            (
                "capabilities"@,
                JsonView::Object(seq![("tools"@, JsonView::Object(Seq::empty()))]),
            ),
            (
                "serverInfo"@,
                JsonView::Object(
                    seq![
                        ("name"@, JsonView::Text("research-mcp"@)),
                        ("version"@, JsonView::Text(VERSION@)),
                    ],
                ),
            ),
        ],
    )
}

fn with_result(id: Json, result: Json) -> (r: Json)
    ensures
        r@ == result_reply(id@, result@),
{
    let ghost i = id@;
    let ghost q = result@;
    let mut v: Vec<(String, Json)> = Vec::new();
    json::put(&mut v, "jsonrpc", json::text("2.0"));
    json::put(&mut v, "id", id);
    json::put(&mut v, "result", result);
    assert(json::fields_view(v@) == seq![
        ("jsonrpc"@, JsonView::Text("2.0"@)),
        ("id"@, i),
        ("result"@, q),
    ]);
    json::object(v)
}

fn with_error(id: Json, code: &str, message: &str) -> (r: Json)
    ensures
        r@ == error_reply(id@, code@, message@),
{
    let ghost i = id@;
    let mut e: Vec<(String, Json)> = Vec::new();
    json::put(&mut e, "code", Json::Number(code.to_owned()));
    json::put(&mut e, "message", json::text(message));
    assert(json::fields_view(e@) == seq![
        ("code"@, JsonView::Number(code@)),
        ("message"@, JsonView::Text(message@)),
    ]);
    let ghost ev = json::fields_view(e@);
    let mut v: Vec<(String, Json)> = Vec::new();
    json::put(&mut v, "jsonrpc", json::text("2.0"));
    json::put(&mut v, "id", id);
    json::put(&mut v, "error", json::object(e));
    assert(json::fields_view(v@) == seq![
        ("jsonrpc"@, JsonView::Text("2.0"@)),
        ("id"@, i),
        ("error"@, JsonView::Object(ev)),
    ]);
    json::object(v)
}

fn server_value() -> (r: Json)
    ensures
        r@ == server_view(),
{
    let none: Vec<(String, Json)> = Vec::new();
    assert(json::fields_view(none@) == Seq::<(Seq<char>, JsonView)>::empty());
    let mut caps: Vec<(String, Json)> = Vec::new();
    json::put(&mut caps, "tools", json::object(none));
    assert(json::fields_view(caps@) == seq![("tools"@, JsonView::Object(Seq::empty()))]);
    let ghost cv = json::fields_view(caps@);
    let mut info: Vec<(String, Json)> = Vec::new();
    json::put(&mut info, "name", json::text("research-mcp"));
    json::put(&mut info, "version", json::text(VERSION));
    assert(json::fields_view(info@) == seq![
        ("name"@, JsonView::Text("research-mcp"@)),
        ("version"@, JsonView::Text(VERSION@)),
    ]);
    let ghost iv = json::fields_view(info@);
    let mut v: Vec<(String, Json)> = Vec::new();
    json::put(&mut v, "protocolVersion", json::text("2024-11-05"));
    json::put(&mut v, "capabilities", json::object(caps));
    json::put(&mut v, "serverInfo", json::object(info));
    assert(json::fields_view(v@) == seq![
        ("protocolVersion"@, JsonView::Text("2024-11-05"@)),
        ("capabilities"@, JsonView::Object(cv)),
        ("serverInfo"@, JsonView::Object(iv)),
    ]);
    json::object(v)
}

/// What is done about a message.
#[derive(Debug)]
pub enum Reaction {
    /// Nothing.
    Ignore,
    /// It is answered.
    Reply(Json),
    /// A tool is called, or the call is refused.
    Call(Result<Tool, String>),
}

/// The parameters of a message, or an empty object.
pub open spec fn called_by(msg: Json) -> Result<ToolView, Seq<char>> {
    match msg.field("params"@) {
        Some(p) => called_tool(p),
        None => Err("missing tool name"@),
    }
}

/// The message is answered with this result, if it wants an answer.
pub open spec fn answers(r: Reaction, msg: Json, result: JsonView) -> bool {
    if is_notification(msg) {
        r is Ignore
    } else {
        r matches Reaction::Reply(j) && j@ == result_reply(message_id(msg), result)
    }
}

/// What is done about a message is right.
pub open spec fn rightly_handled(r: Reaction, msg: Json) -> bool {
    let m = method_of(msg);
    if m == "initialize"@ {
        answers(r, msg, server_view())
    } else if m == "notifications/initialized"@ || m == "initialized"@ {
        r is Ignore
    } else if m == "ping"@ {
        answers(r, msg, JsonView::Object(Seq::empty()))
    } else if m == "tools/list"@ {
        answers(r, msg, JsonView::Object(seq![("tools"@, JsonView::List(tool_views()))]))
    } else if m == "tools/call"@ {
        match r {
            Reaction::Call(Ok(t)) => called_by(msg) == Ok::<ToolView, Seq<char>>(t@),
            Reaction::Call(Err(e)) => called_by(msg) == Err::<ToolView, Seq<char>>(e@),
            _ => false,
        }
    } else if is_notification(msg) {
        r is Ignore
    } else {
        r matches Reaction::Reply(j) && j@ == error_reply(
            message_id(msg),
            "-32601"@,
            "method not found: "@ + m,
        )
    }
}

/// The identifier of a message, or null.
fn id_of(msg: &Json) -> (r: Json)
    ensures
        r@ == message_id(*msg),
{
    match msg.get("id") {
        Some(j) => json::copy(j),
        None => Json::Null,
    }
}

fn silent(id: &Json) -> (r: bool)
    ensures
        r == (id@ is Null),
{
    match id {
        Json::Null => true,
        _ => false,
    }
}

fn answer(id: Json, result: Json) -> (r: Reaction)
    ensures
        if id@ is Null {
            r is Ignore
        } else {
            r matches Reaction::Reply(j) && j@ == result_reply(id@, result@)
        },
{
    if silent(&id) {
        Reaction::Ignore
    } else {
        Reaction::Reply(with_result(id, result))
    }
}

/// Decides what is done about a message.
pub fn handle_message(msg: &Json) -> (r: Reaction)
    ensures
        rightly_handled(r, *msg),
{
    let method = match msg.get_text("method") {
        Some(m) => m,
        None => "",
    };
    let id = id_of(msg);
    if text::same(method, "initialize") {
        answer(id, server_value())
    } else if text::same(method, "notifications/initialized") || text::same(method, "initialized") {
        Reaction::Ignore
    } else if text::same(method, "ping") {
        let none: Vec<(String, Json)> = Vec::new();
        assert(json::fields_view(none@) == Seq::<(Seq<char>, JsonView)>::empty());
        answer(id, json::object(none))
    } else if text::same(method, "tools/list") {
        let mut v: Vec<(String, Json)> = Vec::new();
        json::put(&mut v, "tools", json::list(tool_defs()));
        assert(json::fields_view(v@) == seq![("tools"@, JsonView::List(tool_views()))]);
        answer(id, json::object(v))
    } else if text::same(method, "tools/call") {
        match msg.get("params") {
            Some(p) => Reaction::Call(tools_call(p)),
            None => Reaction::Call(Err("missing tool name".to_owned())),
        }
    } else if silent(&id) {
        Reaction::Ignore
    } else {
        let message = glue("method not found: ", method);
        Reaction::Reply(with_error(id, "-32601", message.as_str()))
    }
}

/// What a tool returned, as the result of a call.
pub open spec fn tool_result(body: Seq<char>) -> JsonView {
    JsonView::Object(
        seq![
            (
                "content"@,
                JsonView::List(
                    seq![
                        JsonView::Object(
                            seq![("type"@, JsonView::Text("text"@)), ("text"@, JsonView::Text(body))],
                        ),
                    ],
                ),
            ),
            ("isError"@, JsonView::Bool(false)),
        ],
    )
}

fn tool_result_value(body: &str) -> (r: Json)
    ensures
        r@ == tool_result(body@),
{
    let mut part: Vec<(String, Json)> = Vec::new();
    json::put(&mut part, "type", json::text("text"));
    json::put(&mut part, "text", json::text(body));
    assert(json::fields_view(part@) == seq![
        ("type"@, JsonView::Text("text"@)),
        ("text"@, JsonView::Text(body@)),
    ]);
    let ghost pv = json::fields_view(part@);
    let mut items: Vec<Json> = Vec::new();
    items.push(json::object(part));
    assert(json::items_view(items@) == seq![JsonView::Object(pv)]);
    let ghost lv = json::items_view(items@);
    let mut v: Vec<(String, Json)> = Vec::new();
    json::put(&mut v, "content", json::list(items));
    json::put(&mut v, "isError", Json::Bool(false));
    assert(json::fields_view(v@) == seq![
        ("content"@, JsonView::List(lv)),
        ("isError"@, JsonView::Bool(false)),
    ]);
    json::object(v)
}

/// The reply to a call tells what came of it; a notification gets none.
pub open spec fn is_call_reply(r: Option<Json>, msg: Json, outcome: Result<String, String>) -> bool {
    match r {
        None => is_notification(msg),
        Some(j) => !is_notification(msg) && j@ == match outcome {
            Ok(s) => result_reply(message_id(msg), tool_result(s@)),
            Err(e) => error_reply(message_id(msg), "-32000"@, e@),
        },
    }
}

/// The answer to a call, given what the tool returned or why it failed; none where the
/// message wants no answer.
pub fn call_reply(msg: &Json, outcome: &Result<String, String>) -> (r: Option<Json>)
    ensures
        is_call_reply(r, *msg, *outcome),
{
    let id = id_of(msg);
    if silent(&id) {
        return None;
    }
    match outcome {
        Ok(s) => Some(with_result(id, tool_result_value(s.as_str()))),
        Err(e) => Some(with_error(id, "-32000", e.as_str())),
    }
}

/// The answer to a line that is no JSON.
pub fn parse_error_reply(error: &str) -> (r: Json)
    ensures
        r@ == error_reply(JsonView::Null, "-32700"@, "parse error: "@ + error@),
{
    let message = glue("parse error: ", error);
    with_error(Json::Null, "-32700", message.as_str())
}

/// A job as it is listed.
pub open spec fn job_row(j: JobView) -> JsonView {
    JsonView::Object(
        seq![
            ("id"@, JsonView::Text(ids::uuid_text(j.id))),
            ("status"@, JsonView::Text(job::status_text(j.status))),
            ("source"@, JsonView::Text(j.source_path)),
            ("project"@, json::opt_text(j.project_slug)),
            ("title"@, json::opt_text(j.title)),
        ],
    )
}

fn job_row_value(j: &IngestJob) -> (r: Json)
    ensures
        r@ == job_row(j@),
{
    let mut v: Vec<(String, Json)> = Vec::new();
    json::put(&mut v, "id", json::text(ids::id_text(j.id).as_str()));
    json::put(&mut v, "status", json::text(j.status.name()));
    json::put(&mut v, "source", json::text(j.source_path.as_str()));
    json::put(&mut v, "project", json::text_or_null(&j.project_slug));
    json::put(&mut v, "title", json::text_or_null(&j.title));
    assert(json::fields_view(v@) == seq![
        ("id"@, JsonView::Text(ids::uuid_text(j.id))),
        ("status"@, JsonView::Text(job::status_text(j.status))),
        ("source"@, JsonView::Text(j.source_path@)),
        ("project"@, json::opt_text(text::opt_view(j.project_slug))),
        ("title"@, json::opt_text(text::opt_view(j.title))),
    ]);
    json::object(v)
}

/// The jobs that are not settled, as they are listed.
pub open spec fn open_rows(jobs: Seq<IngestJob>) -> Seq<JsonView>
    decreases jobs.len(),
{
    if jobs.len() == 0 {
        Seq::empty()
    } else if jobs.last().status.settled() {
        open_rows(jobs.drop_last())
    } else {
        open_rows(jobs.drop_last()).push(job_row(jobs.last()@))
    }
}

/// The jobs that were read and are not settled, oldest first.
pub fn pending_rows(read: Vec<IngestJob>) -> (r: Json)
    ensures
        r@ == JsonView::List(open_rows(queue::in_order(read@))),
{
    let ghost src = queue::in_order(read@);
    let jobs = JobQueue::list(read);
    let mut rows: Vec<Json> = Vec::new();
    let mut i: usize = 0;
    assert(json::items_view(rows@) == open_rows(src.take(0)));
    while i < jobs.len()
        invariant
            i <= jobs@.len(),
            jobs@ == src,
            json::items_view(rows@) == open_rows(src.take(i as int)),
        decreases jobs@.len() - i,
    {
        proof {
            assert(src.take(i + 1).drop_last() == src.take(i as int));
            assert(src.take(i + 1).last() == src[i as int]);
        }
        let s = jobs[i].status;
        if s != JobStatus::Done && s != JobStatus::Skipped {
            let ghost before = rows@;
            let row = job_row_value(&jobs[i]);
            rows.push(row);
            assert(json::items_view(rows@) == json::items_view(before).push(row@));
        }
        i = i + 1;
    }
    assert(src.take(i as int) == src);
    json::list(rows)
}

/// A note that was found, as it is listed.
pub open spec fn hit_row(h: (Seq<char>, Seq<char>)) -> JsonView {
    JsonView::Object(seq![("path"@, JsonView::Text(h.0)), ("snippet"@, JsonView::Text(h.1))])
}

/// Notes that were found, as they are listed.
pub fn hit_rows(hits: &Vec<Hit>) -> (r: Json)
    ensures
        r@ == JsonView::List(
            vault::hits_view(hits@).map_values(|h: (Seq<char>, Seq<char>)| hit_row(h)),
        ),
{
    let ghost all = vault::hits_view(hits@).map_values(|h: (Seq<char>, Seq<char>)| hit_row(h));
    let mut rows: Vec<Json> = Vec::new();
    let mut i: usize = 0;
    while i < hits.len()
        invariant
            i <= hits@.len(),
            all == vault::hits_view(hits@).map_values(|h: (Seq<char>, Seq<char>)| hit_row(h)),
            json::items_view(rows@) == all.take(i as int),
        decreases hits@.len() - i,
    {
        let mut v: Vec<(String, Json)> = Vec::new();
        json::put(&mut v, "path", json::text(hits[i].path.as_str()));
        json::put(&mut v, "snippet", json::text(hits[i].snippet.as_str()));
        assert(json::fields_view(v@) == seq![
            ("path"@, JsonView::Text(hits@[i as int].path@)),
            ("snippet"@, JsonView::Text(hits@[i as int].snippet@)),
        ]);
        let ghost before = rows@;
        let row = json::object(v);
        assert(row@ == all[i as int]);
        rows.push(row);
        assert(json::items_view(rows@) == json::items_view(before).push(row@));
        assert(all.take(i + 1) == all.take(i as int).push(all[i as int]));
        i = i + 1;
    }
    assert(all.take(i as int) == all);
    json::list(rows)
}

/// The texts as a list.
pub open spec fn text_rows(v: Seq<Seq<char>>) -> JsonView {
    JsonView::List(v.map_values(|s: Seq<char>| JsonView::Text(s)))
}

/// The projects of the vault, sorted.
pub fn project_rows(entries: &Vec<Entry>) -> (r: Json)
    ensures
        exists|s: Seq<Seq<char>>|
            order::sorted(s) && s.to_multiset() == vault::project_names(entries@).to_multiset() && r@
                == #[trigger] text_rows(s),
{
    let slugs = VaultPaths::list_project_slugs(entries);
    let r = json::text_list(&slugs);
    assert(r@ == text_rows(text::views(slugs@)));
    r
}

/// The files that wait, sorted by name.
pub fn incoming_rows(files: Vec<String>) -> (r: Json)
    ensures
        exists|s: Seq<Seq<char>>|
            order::sorted(s) && s.to_multiset() == text::views(files@).to_multiset() && r@
                == #[trigger] text_rows(s),
{
    let names = order::sort(files);
    let r = json::text_list(&names);
    assert(r@ == text_rows(text::views(names@)));
    r
}

/// Where a vault is, and how much is in it.
pub open spec fn info_view(root: Seq<char>, projects: nat, jobs: nat) -> JsonView {
    JsonView::Object(
        seq![
            ("vault"@, JsonView::Text(root)),
            ("incoming"@, JsonView::Text(vault::two_below(root, "raw"@, "incoming"@))),
            ("projects_count"@, JsonView::Number(text::decimal_of(projects))),
            ("jobs_total"@, JsonView::Number(text::decimal_of(jobs))),
        ],
    )
}

/// Where the vault is, and how much is in it.
pub fn vault_info(vault: &VaultPaths, projects: u64, jobs: u64) -> (r: Json)
    ensures
        r@ == JsonView::Object(
            seq![
                ("vault"@, JsonView::Text(vault.root@)),
                (
                    "incoming"@,
                    JsonView::Text(vault::two_below(vault.root@, "raw"@, "incoming"@)),
                ),
                ("projects_count"@, JsonView::Number(text::decimal_of(projects as nat))),
                ("jobs_total"@, JsonView::Number(text::decimal_of(jobs as nat))),
            ],
        ),
        r@ == info_view(vault.root@, projects as nat, jobs as nat),
{
    let incoming = vault.incoming();
    let mut v: Vec<(String, Json)> = Vec::new();
    json::put(&mut v, "vault", json::text(vault.root.as_str()));
    json::put(&mut v, "incoming", json::text(incoming.as_str()));
    json::put(&mut v, "projects_count", json::number(projects));
    json::put(&mut v, "jobs_total", json::number(jobs));
    assert(json::fields_view(v@) == seq![
        ("vault"@, JsonView::Text(vault.root@)),
        ("incoming"@, JsonView::Text(incoming@)),
        ("projects_count"@, JsonView::Number(text::decimal_of(projects as nat))),
        ("jobs_total"@, JsonView::Number(text::decimal_of(jobs as nat))),
    ]);
    json::object(v)
}

/// Where the extract of a job is kept.
pub fn extract_path(vault: &VaultPaths, job_id: &str) -> (r: String)
    ensures
        r@ == paths::under(vault::two_below(vault.root@, "raw"@, "extracts"@), job_id@ + ".md"@),
{
    let dir = vault.extracts();
    paths::join(dir.as_str(), glue(job_id, ".md").as_str())
}

/// What is told of a note that was written.
pub fn wrote_text(path: &str) -> (r: String)
    ensures
        r@ == "wrote "@ + path@,
{
    glue("wrote ", path)
}

/// The path below the vault that is meant, or that it is refused.
pub open spec fn meant_path(root: Seq<char>, rel: Seq<char>) -> Option<Seq<char>> {
    let r = text::skip_front(rel, text::equal_to('/'));
    if search::occurs(r, ".."@) {
        None
    } else {
        Some(paths::under(root, r))
    }
}

/// The path below the vault that is meant, or why it is refused.
pub fn vault_path(root: &str, rel: &str) -> (r: Result<String, String>)
    ensures
        match r {
            Ok(p) => meant_path(root@, rel@) == Some(p@),
            Err(e) => meant_path(root@, rel@) is None && e@ == "path must not contain .."@,
        },
{
    let r = text::strip_front(rel, '/');
    if search::contains(r, "..") {
        return Err("path must not contain ..".to_owned());
    }
    Ok(paths::join(root, r))
}

/// What was seen of a path below the vault, with all links followed: where the vault
/// is, where the path leads if it exists, and where its directory is if that exists.
#[derive(Debug, Clone)]
pub struct Followed {
    pub root: String,
    pub path: Option<String>,
    pub parent: Option<String>,
}

/// The file that a path below the vault stands for, or that it is refused.
pub open spec fn joined_path(p: Seq<char>, seen: Followed) -> Option<Seq<char>> {
    match seen.path {
        Some(c) => if paths::inside(c@, seen.root@) {
            Some(c@)
        } else {
            None
        },
        None => match seen.parent {
            Some(d) => if paths::inside(d@, seen.root@) {
                Some(p)
            } else {
                None
            },
            None => Some(p),
        },
    }
}

/// The file that a path below the vault stands for, or why it is refused: one that
/// leads out of the vault is not to be read or written.
pub fn safe_join(root: &str, rel: &str, seen: &Followed) -> (r: Result<String, String>)
    ensures
        match r {
            Ok(f) => meant_path(root@, rel@) is Some && joined_path(
                meant_path(root@, rel@).unwrap(),
                *seen,
            ) == Some(f@),
            Err(e) => if meant_path(root@, rel@) is None {
                e@ == "path must not contain .."@
            } else {
                joined_path(meant_path(root@, rel@).unwrap(), *seen) is None && e@
                    == "path escapes vault"@
            },
        },
{
    let path = match vault_path(root, rel) {
        Ok(p) => p,
        Err(e) => {
            return Err(e);
        },
    };
    if let Some(c) = &seen.path {
        if !paths::is_inside(c.as_str(), seen.root.as_str()) {
            return Err("path escapes vault".to_owned());
        }
        return Ok(c.clone());
    }
    if let Some(d) = &seen.parent {
        if !paths::is_inside(d.as_str(), seen.root.as_str()) {
            return Err("path escapes vault".to_owned());
        }
    }
    Ok(path)
}

/// Nothing that leads out of the vault is read: a file that exists is handed out only
/// where it lies inside the vault, with all links followed.
pub proof fn existing_files_lie_in_the_vault(p: Seq<char>, seen: Followed)
    requires
        seen.path is Some,
        joined_path(p, seen) is Some,
    ensures
        paths::inside(joined_path(p, seen).unwrap(), seen.root@),
{
}

/// Nothing new is written outside the vault: the path that is meant starts at the
/// vault, goes up nowhere, and its directory, where it exists, lies inside the vault
/// with all links followed.
pub proof fn new_files_lie_in_the_vault(root: Seq<char>, rel: Seq<char>, seen: Followed)
    requires
        meant_path(root, rel) is Some,
        joined_path(meant_path(root, rel).unwrap(), seen) is Some,
        seen.path is None,
    ensures
        ({
            let f = joined_path(meant_path(root, rel).unwrap(), seen).unwrap();
            &&& paths::inside(f, root)
            &&& forall|k: int|
                paths::full_components(root).len() <= k < paths::full_components(f).len()
                    ==> #[trigger] paths::full_components(f)[k] != ".."@
            &&& seen.parent is Some ==> paths::inside(seen.parent.unwrap()@, seen.root@)
        }),
{
    let r = text::skip_front(rel, text::equal_to('/'));
    let i = crate::slug::lemma_front_cut(rel, text::equal_to('/'));
    assert(!paths::rooted(r)) by {
        if r.len() > 0 {
            assert(r[0] == rel[i]);
            assert(!text::equal_to('/')(rel[i]));
        }
    }
    paths::lemma_inside_under(root, r);
    let f = paths::under(root, r);
    assert forall|k: int|
        paths::full_components(root).len() <= k < paths::full_components(f).len() implies (
    #[trigger] paths::full_components(f)[k]) != ".."@ by {
        let c = paths::full_components(f)[k];
        let j = choose|j: int|
            0 <= j < split::pieces(r, '/').len() && c == #[trigger] split::pieces(r, '/')[j];
        search::lemma_piece_occurs(r, '/', j);
    }
}

/// The name of a tool as it is offered.
pub open spec fn offered_name(t: JsonView) -> Seq<char> {
    t->Object_0[0].1->Text_0
}

/// The arguments that a tool requires, as it is offered.
pub open spec fn required_arguments(t: JsonView) -> Seq<JsonView> {
    let input = t->Object_0[2].1->Object_0;
    if input.len() > 2 {
        input[2].1->List_0
    } else {
        Seq::empty()
    }
}

/// Every tool that is offered can be called: with its name and the arguments that it
/// requires, a call is not refused.
pub proof fn offered_tools_can_be_called(params: Json, t: JsonView)
    requires
        tool_views().contains(t),
        params.field_text("name"@) == Some(offered_name(t)),
        forall|k: int|
            0 <= k < required_arguments(t).len() ==> argument(
                params,
                (#[trigger] required_arguments(t)[k])->Text_0,
            ) is Some,
    ensures
        called_tool(params) is Ok,
{
    let i = choose|i: int| 0 <= i < tool_views().len() && tool_views()[i] == t;
    let r = required_arguments(t);
    assert(tool_views().len() == 8);
    if i == 2 {
        assert(r[0] == JsonView::Text("query"@));
    } else if i == 3 {
        assert(r[0] == JsonView::Text("path"@));
    } else if i == 4 {
        assert(r[0] == JsonView::Text("path"@));
        assert(r[1] == JsonView::Text("content"@));
    } else if i == 7 {
        assert(r[0] == JsonView::Text("job_id"@));
    }
    lemma_tool_names_differ();
}

/// Tools that take arguments are told apart from each other and from the rest.
proof fn lemma_tool_names_differ()
    ensures
        "search_notes"@ != "read_note"@,
        "search_notes"@ != "write_note"@,
        "search_notes"@ != "read_extract"@,
        "read_note"@ != "write_note"@,
        "read_note"@ != "read_extract"@,
        "write_note"@ != "read_extract"@,
        "list_incoming"@ != "search_notes"@,
        "list_incoming"@ != "read_note"@,
        "list_incoming"@ != "write_note"@,
        "list_incoming"@ != "read_extract"@,
        "vault_info"@ != "search_notes"@,
        "vault_info"@ != "read_note"@,
        "vault_info"@ != "write_note"@,
        "vault_info"@ != "read_extract"@,
{
    reveal_strlit("search_notes");
    reveal_strlit("read_note");
    reveal_strlit("write_note");
    reveal_strlit("list_incoming");
    reveal_strlit("vault_info");
    reveal_strlit("read_extract");
    assert("search_notes"@[0] == 's');
    assert("read_note"@[0] == 'r');
    assert("write_note"@[0] == 'w');
    assert("list_incoming"@[0] == 'l');
    assert("vault_info"@[0] == 'v');
    assert("read_extract"@[5] == 'e');
    assert("read_note"@[5] == 'n');
}

/// What was seen of a path is right: the vault stands where its root leads, and the
/// path leads to a file if there is one. `leads` is where a path leads with all links
/// followed, and `files` is what files hold, by where they really are.
pub open spec fn rightly_seen(
    seen: Followed,
    files: Map<Seq<char>, Seq<u8>>,
    leads: spec_fn(Seq<char>) -> Seq<char>,
    root: Seq<char>,
    path: Seq<char>,
) -> bool {
    &&& seen.root@ == leads(root)
    &&& text::opt_view(seen.path) == if files.dom().contains(leads(path)) {
        Some(leads(path))
    } else {
        None
    }
}

/// The file that a tool reads or writes, where it is not refused.
pub open spec fn handed_out(root: Seq<char>, rel: Seq<char>, seen: Followed) -> Option<Seq<char>> {
    match meant_path(root, rel) {
        Some(p) => joined_path(p, seen),
        None => None,
    }
}

/// What files hold once a note was written by a call, if it was.
pub open spec fn after_write(
    files: Map<Seq<char>, Seq<u8>>,
    leads: spec_fn(Seq<char>) -> Seq<char>,
    root: Seq<char>,
    params: Json,
    seen: Followed,
) -> Option<Map<Seq<char>, Seq<u8>>> {
    match called_tool(params) {
        Ok(ToolView::WriteNote(rel, content)) => match handed_out(root, rel, seen) {
            Some(f) => Some(files.insert(leads(f), encode_utf8(content))),
            None => None,
        },
        _ => None,
    }
}

/// The result of a call that reads a note, if it gives one.
pub open spec fn read_result(
    files: Map<Seq<char>, Seq<u8>>,
    leads: spec_fn(Seq<char>) -> Seq<char>,
    root: Seq<char>,
    params: Json,
    seen: Followed,
) -> Option<JsonView> {
    match called_tool(params) {
        Ok(ToolView::ReadNote(rel)) => match handed_out(root, rel, seen) {
            Some(f) => match files::text_at(files, leads(f)) {
                Some(body) => if files::readable(files, leads(f)) {
                    Some(tool_result(body))
                } else {
                    None
                },
                None => None,
            },
            None => None,
        },
        _ => None,
    }
}

/// The call writes, or reads, a note.
proof fn lemma_note_calls(params: Json)
    ensures
        params.field_text("name"@) == Some("write_note"@) ==> called_tool(params) == (match (
            argument(params, "path"@),
            argument(params, "content"@),
        ) {
            (None, _) => Err("path required"@),
            (Some(_), None) => Err("content required"@),
            (Some(p), Some(c)) => Ok(ToolView::WriteNote(p, c)),
        }),
        params.field_text("name"@) == Some("read_note"@) ==> called_tool(params) == (match argument(
            params,
            "path"@,
        ) {
            Some(p) => Ok(ToolView::ReadNote(p)),
            None => Err("path required"@),
        }),
{
    reveal_strlit("list_projects");
    reveal_strlit("list_pending_jobs");
    reveal_strlit("search_notes");
    reveal_strlit("read_note");
    reveal_strlit("write_note");
    assert("write_note"@.len() == 10 && "read_note"@.len() == 9);
    assert("list_projects"@.len() == 13 && "list_pending_jobs"@.len() == 17 && "search_notes"@.len()
        == 12);
}

/// A note that was written is read back as it was written, whether it is new or replaces
/// an older one, which leaves nothing behind: the result of reading the same path holds
/// the text that was written. A new note must really lie in the vault: where links in a
/// path that does not exist yet lead out of the vault, reading is refused.
pub proof fn written_notes_are_read_back(
    files: Map<Seq<char>, Seq<u8>>,
    leads: spec_fn(Seq<char>) -> Seq<char>,
    root: Seq<char>,
    rel: Seq<char>,
    content: Seq<char>,
    write: Json,
    before: Followed,
    read: Json,
    after: Followed,
)
    requires
        forall|p: Seq<char>| leads(#[trigger] leads(p)) == leads(p),
        write.field_text("name"@) == Some("write_note"@),
        argument(write, "path"@) == Some(rel),
        argument(write, "content"@) == Some(content),
        read.field_text("name"@) == Some("read_note"@),
        argument(read, "path"@) == Some(rel),
        meant_path(root, rel) is Some,
        rightly_seen(before, files, leads, root, meant_path(root, rel).unwrap()),
        after_write(files, leads, root, write, before) is Some,
        rightly_seen(
            after,
            after_write(files, leads, root, write, before).unwrap(),
            leads,
            root,
            meant_path(root, rel).unwrap(),
        ),
        files.dom().contains(leads(meant_path(root, rel).unwrap())) || paths::inside(
            leads(meant_path(root, rel).unwrap()),
            leads(root),
        ),
    ensures
        read_result(
            after_write(files, leads, root, write, before).unwrap(),
            leads,
            root,
            read,
            after,
        ) == Some(tool_result(content)),
{
    lemma_note_calls(write);
    lemma_note_calls(read);
    let p = meant_path(root, rel).unwrap();
    let f = handed_out(root, rel, before).unwrap();
    assert(leads(f) == leads(p));
    let now = after_write(files, leads, root, write, before).unwrap();
    assert(now.dom().contains(leads(p)));
    assert(handed_out(root, rel, after) == Some(leads(p)));
    files::lemma_written_text(files, leads(p), content);
}

/// The tools have different names.
proof fn lemma_tools_apart()
    ensures
        "list_projects"@ != "list_pending_jobs"@,
        "list_projects"@ != "search_notes"@,
        "list_projects"@ != "read_note"@,
        "list_projects"@ != "write_note"@,
        "list_projects"@ != "list_incoming"@,
        "list_projects"@ != "vault_info"@,
        "list_projects"@ != "read_extract"@,
        "list_pending_jobs"@ != "search_notes"@,
        "list_pending_jobs"@ != "read_note"@,
        "list_pending_jobs"@ != "write_note"@,
        "list_pending_jobs"@ != "list_incoming"@,
        "list_pending_jobs"@ != "vault_info"@,
        "list_pending_jobs"@ != "read_extract"@,
        "search_notes"@ != "read_note"@,
        "search_notes"@ != "write_note"@,
        "search_notes"@ != "list_incoming"@,
        "search_notes"@ != "vault_info"@,
        "search_notes"@ != "read_extract"@,
        "read_note"@ != "write_note"@,
        "read_note"@ != "list_incoming"@,
        "read_note"@ != "vault_info"@,
        "read_note"@ != "read_extract"@,
        "write_note"@ != "list_incoming"@,
        "write_note"@ != "vault_info"@,
        "write_note"@ != "read_extract"@,
        "list_incoming"@ != "vault_info"@,
        "list_incoming"@ != "read_extract"@,
        "vault_info"@ != "read_extract"@,
{
    reveal_strlit("list_projects");
    reveal_strlit("list_pending_jobs");
    reveal_strlit("search_notes");
    reveal_strlit("read_note");
    reveal_strlit("write_note");
    reveal_strlit("list_incoming");
    reveal_strlit("vault_info");
    reveal_strlit("read_extract");
    assert("list_projects"@.len() == 13);
    assert("list_pending_jobs"@.len() == 17);
    assert("search_notes"@.len() == 12);
    assert("read_note"@.len() == 9);
    assert("write_note"@.len() == 10);
    assert("list_incoming"@.len() == 13);
    assert("vault_info"@.len() == 10);
    assert("read_extract"@.len() == 12);
    assert("list_projects"@[5] == 'p' && "list_incoming"@[5] == 'i');
    assert("search_notes"@[0] == 's' && "read_extract"@[0] == 'r');
    assert("write_note"@[0] == 'w' && "vault_info"@[0] == 'v');
}

/// A tool is called by its name with what it is given: the query and the limit of a search,
/// the path of a note to read, the path and the content of a note to write, the job of an
/// extract. A search without a limit has one of twenty.
pub proof fn tools_are_called_by_their_name(params: Json, name: Seq<char>)
    requires
        params.field_text("name"@) == Some(name),
    ensures
        name == "list_projects"@ ==> called_tool(params) == Ok::<ToolView, Seq<char>>(
            ToolView::ListProjects,
        ),
        name == "list_pending_jobs"@ ==> called_tool(params) == Ok::<ToolView, Seq<char>>(
            ToolView::ListPendingJobs,
        ),
        name == "list_incoming"@ ==> called_tool(params) == Ok::<ToolView, Seq<char>>(
            ToolView::ListIncoming,
        ),
        name == "vault_info"@ ==> called_tool(params) == Ok::<ToolView, Seq<char>>(
            ToolView::VaultInfo,
        ),
        params.field("arguments"@) matches Some(a) ==> {
            &&& name == "search_notes"@ ==> (a.field_text("query"@) matches Some(q) ==> called_tool(
                params,
            ) == Ok::<ToolView, Seq<char>>(ToolView::SearchNotes(q, limit_argument(params))))
            &&& name == "read_note"@ ==> (a.field_text("path"@) matches Some(p) ==> called_tool(
                params,
            ) == Ok::<ToolView, Seq<char>>(ToolView::ReadNote(p)))
            &&& name == "write_note"@ ==> (a.field_text("path"@) matches Some(p) ==> (a.field_text(
                "content"@,
            ) matches Some(c) ==> called_tool(params) == Ok::<ToolView, Seq<char>>(
                ToolView::WriteNote(p, c),
            )))
            &&& name == "read_extract"@ ==> (a.field_text("job_id"@) matches Some(id) ==> called_tool(
                params,
            ) == Ok::<ToolView, Seq<char>>(ToolView::ReadExtract(id)))
            &&& a.field("limit"@) is None ==> limit_argument(params) == 20
            &&& a.field("limit"@) matches Some(Json::Number(s)) ==> forall|n: u64|
                s@ == #[trigger] text::decimal_of(n as nat) ==> limit_argument(params) == n
        },
        called_tool(params) is Ok ==> exists|i: int|
            0 <= i < tool_views().len() && offered_name(#[trigger] tool_views()[i]) == name,
{
    lemma_tools_apart();
    if let Some(a) = params.field("arguments"@) {
        if let Some(Json::Number(s)) = a.field("limit"@) {
            assert forall|n: u64| s@ == #[trigger] text::decimal_of(n as nat) implies limit_argument(
                params,
            ) == n by {
                numbers::decimal_is_read_back(n);
            }
        }
    }
    let t = tool_views();
    if called_tool(params) is Ok {
        let i: int = if name == "list_projects"@ {
            0
        } else if name == "list_pending_jobs"@ {
            1
        } else if name == "search_notes"@ {
            2
        } else if name == "read_note"@ {
            3
        } else if name == "write_note"@ {
            4
        } else if name == "list_incoming"@ {
            5
        } else if name == "vault_info"@ {
            6
        } else {
            7
        };
        assert(offered_name(t[i]) == name);
        assert(0 <= i < t.len());
    }
}

/// A message without an identifier, or with none that counts, gets no reply. A reply carries
/// the identifier of the message that it answers.
pub proof fn replies_carry_the_identifier(r: Reaction, msg: Json)
    requires
        rightly_handled(r, msg),
    ensures
        msg.field("id"@) is None ==> !(r is Reply),
        msg.field("id"@) == Some(Json::Null) ==> !(r is Reply),
        r matches Reaction::Reply(j) ==> j@ is Object && j@->Object_0.contains(
            ("jsonrpc"@, JsonView::Text("2.0"@)),
        ) && (msg.field("id"@) matches Some(id) ==> j@->Object_0.contains(("id"@, id@))),
{
    if let Reaction::Reply(j) = r {
        let f = j@->Object_0;
        assert(f[0] == ("jsonrpc"@, JsonView::Text("2.0"@)));
        assert(f[1] == ("id"@, message_id(msg)));
    }
}

/// A call of a tool is always answered by calling it or by saying what is wrong with the
/// call, and no other method calls one. A method that nobody knows is answered with its name.
pub proof fn only_calls_call_tools(r: Reaction, msg: Json)
    requires
        rightly_handled(r, msg),
    ensures
        method_of(msg) == "tools/call"@ <==> r is Call,
        method_of(msg) == "tools/call"@ ==> (msg.field("params"@) matches Some(p) ==> match r {
            Reaction::Call(Ok(t)) => called_tool(p) == Ok::<ToolView, Seq<char>>(t@),
            Reaction::Call(Err(e)) => called_tool(p) == Err::<ToolView, Seq<char>>(e@),
            _ => false,
        }),
        method_of(msg) != "initialize"@ && method_of(msg) != "notifications/initialized"@
            && method_of(msg) != "initialized"@ && method_of(msg) != "ping"@ && method_of(msg)
            != "tools/list"@ && method_of(msg) != "tools/call"@ ==> (r matches Reaction::Reply(j)
            ==> exists|i: int|
            0 <= i < j@->Object_0.len() && (#[trigger] j@->Object_0[i]).0 == "error"@),
{
    reveal_strlit("initialize");
    reveal_strlit("notifications/initialized");
    reveal_strlit("initialized");
    reveal_strlit("ping");
    reveal_strlit("tools/list");
    reveal_strlit("tools/call");
    assert("tools/list"@[6] == 'l' && "tools/call"@[6] == 'c');
    assert("initialize"@[0] == 'i' && "tools/call"@[0] == 't');
    if let Reaction::Reply(j) = r {
        let m = method_of(msg);
        if m != "initialize"@ && m != "notifications/initialized"@ && m != "initialized"@ && m
            != "ping"@ && m != "tools/list"@ && m != "tools/call"@ {
            assert(j@->Object_0[2].0 == "error"@);
        }
    }
}

/// The result of a tool holds its text, and an error its message.
pub proof fn results_hold_their_text(id: JsonView, body: Seq<char>, code: Seq<char>, message: Seq<char>)
    ensures
        ({
            let r = result_reply(id, tool_result(body))->Object_0;
            let e = error_reply(id, code, message)->Object_0;
            &&& r.contains(("id"@, id)) && e.contains(("id"@, id))
            &&& r.contains(("result"@, tool_result(body)))
            &&& tool_result(body)->Object_0[0].0 == "content"@
            &&& tool_result(body)->Object_0[0].1->List_0.len() == 1
            &&& tool_result(body)->Object_0[0].1->List_0[0]->Object_0.contains(
                ("text"@, JsonView::Text(body)),
            )
            &&& tool_result(body)->Object_0.contains(("isError"@, JsonView::Bool(false)))
            &&& exists|i: int|
                0 <= i < e.len() && (#[trigger] e[i]).0 == "error"@ && e[i].1->Object_0.contains(
                    ("message"@, JsonView::Text(message)),
                ) && e[i].1->Object_0.contains(("code"@, JsonView::Number(code)))
        }),
{
    let r = result_reply(id, tool_result(body))->Object_0;
    let e = error_reply(id, code, message)->Object_0;
    assert(r[1] == ("id"@, id));
    assert(r[2] == ("result"@, tool_result(body)));
    assert(e[1] == ("id"@, id));
    assert(e[2].0 == "error"@);
    assert(e[2].1->Object_0[0] == ("code"@, JsonView::Number(code)));
    assert(e[2].1->Object_0[1] == ("message"@, JsonView::Text(message)));
    assert(tool_result(body)->Object_0[1] == ("isError"@, JsonView::Bool(false)));
    assert(tool_result(body)->Object_0[0].1->List_0[0]->Object_0[1] == (
        "text"@,
        JsonView::Text(body),
    ));
}

/// The row of a job tells which it is, how far it has come, and what it is about; that of a
/// hit tells where the note is and what is shown of it.
pub proof fn rows_tell_what_they_stand_for(j: JobView, path: Seq<char>, snippet: Seq<char>)
    ensures
        job_row(j)->Object_0.contains(("id"@, JsonView::Text(ids::uuid_text(j.id)))),
        job_row(j)->Object_0.contains(("status"@, JsonView::Text(job::status_text(j.status)))),
        job_row(j)->Object_0.contains(("source"@, JsonView::Text(j.source_path))),
        j.project_slug matches Some(s) ==> job_row(j)->Object_0.contains(
            ("project"@, JsonView::Text(s)),
        ),
        j.title matches Some(t) ==> job_row(j)->Object_0.contains(("title"@, JsonView::Text(t))),
        hit_row((path, snippet))->Object_0.contains(("path"@, JsonView::Text(path))),
        hit_row((path, snippet))->Object_0.contains(("snippet"@, JsonView::Text(snippet))),
{
    let f = job_row(j)->Object_0;
    assert(f[0].0 == "id"@);
    assert(f[1].0 == "status"@);
    assert(f[2].0 == "source"@);
    assert(f[3] == ("project"@, json::opt_text(j.project_slug)));
    assert(f[4] == ("title"@, json::opt_text(j.title)));
    let h = hit_row((path, snippet))->Object_0;
    assert(h[0].0 == "path"@);
    assert(h[1].0 == "snippet"@);
}

/// The jobs that are listed as pending are those that are neither done nor skipped: each of
/// them has its row, and no other job has one.
pub proof fn pending_jobs_are_listed(jobs: Seq<IngestJob>)
    ensures
        forall|i: int|
            0 <= i < jobs.len() && (#[trigger] jobs[i]).status != JobStatus::Done && jobs[i].status
                != JobStatus::Skipped ==> open_rows(jobs).contains(job_row(jobs[i]@)),
        open_rows(jobs).len() == jobs.filter(
            |j: IngestJob| j.status != JobStatus::Done && j.status != JobStatus::Skipped,
        ).len(),
    decreases jobs.len(),
{
    reveal(Seq::filter);
    let f = |j: IngestJob| j.status != JobStatus::Done && j.status != JobStatus::Skipped;
    if jobs.len() > 0 {
        let d = jobs.drop_last();
        pending_jobs_are_listed(d);
        let r = open_rows(d);
        let all = open_rows(jobs);
        assert forall|i: int|
            0 <= i < jobs.len() && (#[trigger] jobs[i]).status != JobStatus::Done && jobs[i].status
                != JobStatus::Skipped implies all.contains(job_row(jobs[i]@)) by {
            if i < d.len() {
                assert(d[i] == jobs[i]);
                let k = choose|k: int| 0 <= k < r.len() && r[k] == job_row(d[i]@);
                assert(all[k] == r[k]);
            } else {
                assert(all[all.len() - 1] == job_row(jobs[i]@));
            }
        }
    }
}

/// A path that is given for a note is meant below the vault, with or without slashes in
/// front of it; one that holds two dots is refused.
pub proof fn paths_are_meant_below_the_vault(root: Seq<char>, rel: Seq<char>)
    ensures
        !paths::rooted(rel) && !search::occurs(rel, ".."@) ==> meant_path(root, rel) == Some(
            paths::under(root, rel),
        ),
        meant_path(root, seq!['/'] + rel) == meant_path(root, rel),
        !paths::rooted(rel) && search::occurs(rel, ".."@) ==> meant_path(root, rel) is None,
{
    let e = text::equal_to('/');
    let s = seq!['/'] + rel;
    assert(s.drop_first() == rel);
    assert(e(s[0]));
    if !paths::rooted(rel) {
        text::lemma_skip_front(rel, e, 0);
        assert(rel.skip(0) == rel);
    }
}

/// A call with an identifier is always replied to, under that identifier: with the text of
/// the tool where it succeeded, and with the reason where it did not. One without gets no
/// reply.
pub proof fn calls_are_replied_to(r: Option<Json>, msg: Json, outcome: Result<String, String>)
    requires
        is_call_reply(r, msg, outcome),
    ensures
        msg.field("id"@) is None ==> r is None,
        msg.field("id"@) matches Some(id) ==> (id@ is Null || (r is Some && r.unwrap()@->Object_0.contains(
            ("id"@, id@),
        ))),
        r matches Some(j) ==> match outcome {
            Ok(s) => j@->Object_0.contains(("result"@, tool_result(s@))),
            Err(e) => exists|i: int|
                0 <= i < j@->Object_0.len() && (#[trigger] j@->Object_0[i]).0 == "error"@
                    && j@->Object_0[i].1->Object_0.contains(("message"@, JsonView::Text(e@))),
        },
{
    if let Some(j) = r {
        match outcome {
            Ok(s) => {
                results_hold_their_text(message_id(msg), s@, "-32000"@, s@);
            },
            Err(e) => {
                results_hold_their_text(message_id(msg), e@, "-32000"@, e@);
            },
        }
    }
}

/// The reply answers with this result.
pub open spec fn answers_with(r: Reaction, result: JsonView) -> bool {
    r matches Reaction::Reply(j) && j@->Object_0.contains(("result"@, result))
}

/// The reply lists these tools.
pub open spec fn lists_tools(r: Reaction, list: Seq<JsonView>) -> bool {
    answers_with(r, JsonView::Object(seq![("tools"@, JsonView::List(list))]))
}

/// A message that wants an answer gets the one that its method asks for: who the server is,
/// that it is there, or which tools it has, each with its name, what it does and what it
/// takes. A method that nobody knows is an error, which names it. What only tells that the
/// client is ready is never answered.
pub proof fn methods_are_answered(r: Reaction, msg: Json, id: Json)
    requires
        rightly_handled(r, msg),
        msg.field("id"@) == Some(id),
        !(id@ is Null),
    ensures
        method_of(msg) == "initialize"@ ==> answers_with(r, server_view())
            && server_view()->Object_0.contains(
            ("protocolVersion"@, JsonView::Text("2024-11-05"@)),
        ),
        method_of(msg) == "ping"@ ==> answers_with(r, JsonView::Object(Seq::empty())),
        method_of(msg) == "tools/list"@ ==> exists|list: Seq<JsonView>|
            #[trigger] lists_tools(r, list) && offers(list, "list_projects"@) && offers(list, "list_pending_jobs"@) && offers(
                list,
                "search_notes"@,
            ) && offers(list, "read_note"@) && offers(list, "write_note"@) && offers(
                list,
                "list_incoming"@,
            ) && offers(list, "vault_info"@) && offers(list, "read_extract"@),
        method_of(msg) == "notifications/initialized"@ || method_of(msg) == "initialized"@
            ==> r is Ignore,
        method_of(msg) != "initialize"@ && method_of(msg) != "notifications/initialized"@
            && method_of(msg) != "initialized"@ && method_of(msg) != "ping"@ && method_of(msg)
            != "tools/list"@ && method_of(msg) != "tools/call"@ ==> (r matches Reaction::Reply(j)
            && j@->Object_0[2].0 == "error"@ && j@->Object_0[2].1->Object_0.contains(
            ("code"@, JsonView::Number("-32601"@)),
        ) && search::occurs(j@->Object_0[2].1->Object_0[1].1->Text_0, method_of(msg))),
{
    let m = method_of(msg);
    lemma_methods_apart();
    if let Reaction::Reply(j) = r {
        let f = j@->Object_0;
        assert(f[2].0 == "result"@ || f[2].0 == "error"@);
        if m == "initialize"@ {
            assert(f[2] == ("result"@, server_view()));
        } else if m == "ping"@ {
            assert(f[2] == ("result"@, JsonView::Object(Seq::empty())));
        } else if m == "tools/list"@ {
            let list = tool_views();
            assert(f[2] == (
                "result"@,
                JsonView::Object(seq![("tools"@, JsonView::List(list))]),
            ));
            assert(lists_tools(r, list));
            lemma_all_offered();
        } else if m != "tools/call"@ {
            let e = f[2].1->Object_0;
            assert(e[0] == ("code"@, JsonView::Number("-32601"@)));
            search::lemma_occurs_itself(m);
            search::lemma_occurs_add("method not found: "@, m);
        }
    }
    assert(server_view()->Object_0[0] == ("protocolVersion"@, JsonView::Text("2024-11-05"@)));
}

/// The methods have different names.
proof fn lemma_methods_apart()
    ensures
        "initialize"@ != "notifications/initialized"@,
        "initialize"@ != "initialized"@,
        "initialize"@ != "ping"@,
        "initialize"@ != "tools/list"@,
        "initialize"@ != "tools/call"@,
        "notifications/initialized"@ != "ping"@,
        "notifications/initialized"@ != "tools/list"@,
        "initialized"@ != "ping"@,
        "initialized"@ != "tools/list"@,
        "ping"@ != "tools/list"@,
{
    reveal_strlit("initialize");
    reveal_strlit("notifications/initialized");
    reveal_strlit("initialized");
    reveal_strlit("ping");
    reveal_strlit("tools/list");
    reveal_strlit("tools/call");
    assert("initialize"@.len() == 10 && "notifications/initialized"@.len() == 25);
    assert("initialized"@.len() == 11 && "ping"@.len() == 4);
    assert("tools/list"@.len() == 10 && "tools/call"@.len() == 10);
    assert("initialize"@[0] == 'i' && "tools/list"@[0] == 't' && "tools/call"@[0] == 't');
}

/// A tool of this name is in the list, with what it does and what it takes.
pub open spec fn offers(list: Seq<JsonView>, name: Seq<char>) -> bool {
    exists|i: int|
        0 <= i < list.len() && (#[trigger] list[i])->Object_0.contains(
            ("name"@, JsonView::Text(name)),
        ) && list[i]->Object_0.len() == 3 && list[i]->Object_0[1].0 == "description"@
            && list[i]->Object_0[2].0 == "inputSchema"@
}

proof fn lemma_offered(list: Seq<JsonView>, i: int, name: Seq<char>)
    requires
        0 <= i < list.len(),
        list[i]->Object_0.len() == 3,
        list[i]->Object_0[0] == ("name"@, JsonView::Text(name)),
        list[i]->Object_0[1].0 == "description"@,
        list[i]->Object_0[2].0 == "inputSchema"@,
    ensures
        offers(list, name),
{
    assert(list[i]->Object_0.contains(("name"@, JsonView::Text(name))));
}

proof fn lemma_all_offered()
    ensures
        offers(tool_views(), "list_projects"@),
        offers(tool_views(), "list_pending_jobs"@),
        offers(tool_views(), "search_notes"@),
        offers(tool_views(), "read_note"@),
        offers(tool_views(), "write_note"@),
        offers(tool_views(), "list_incoming"@),
        offers(tool_views(), "vault_info"@),
        offers(tool_views(), "read_extract"@),
{
    let t = tool_views();
    lemma_offered(t, 0, "list_projects"@);
    lemma_offered(t, 1, "list_pending_jobs"@);
    lemma_offered(t, 2, "search_notes"@);
    lemma_offered(t, 3, "read_note"@);
    lemma_offered(t, 4, "write_note"@);
    lemma_offered(t, 5, "list_incoming"@);
    lemma_offered(t, 6, "vault_info"@);
    lemma_offered(t, 7, "read_extract"@);
}

/// A list of texts has one row for each of them, in their order.
pub proof fn texts_are_listed_in_order(v: Seq<Seq<char>>)
    ensures
        text_rows(v)->List_0.len() == v.len(),
        forall|i: int| 0 <= i < v.len() ==> #[trigger] text_rows(v)->List_0[i] == JsonView::Text(v[i]),
{
}

/// What is told of a vault is where it lies, where files are dropped in it, and how many
/// projects and jobs there are.
pub proof fn vaults_are_described(root: Seq<char>, projects: nat, jobs: nat)
    ensures
        info_view(root, projects, jobs)->Object_0.contains(("vault"@, JsonView::Text(root))),
        info_view(root, projects, jobs)->Object_0.contains(
            (
                "incoming"@,
                JsonView::Text(paths::under(paths::under(root, "raw"@), "incoming"@)),
            ),
        ),
        info_view(root, projects, jobs)->Object_0.contains(
            ("projects_count"@, JsonView::Number(text::decimal_of(projects))),
        ),
        info_view(root, projects, jobs)->Object_0.contains(
            ("jobs_total"@, JsonView::Number(text::decimal_of(jobs))),
        ),
{
    let f = info_view(root, projects, jobs)->Object_0;
    assert(f[0] == ("vault"@, JsonView::Text(root)));
    assert(f[1].0 == "incoming"@);
    assert(f[2].0 == "projects_count"@);
    assert(f[3].0 == "jobs_total"@);
}

} // verus!
