use research_ingest::clock::Timestamp;
use research_ingest::command::ProgramOutput;
use research_ingest::config::{AiBackend, Config};
use research_ingest::daemon::{
    daily_lines, enable_steps, enabled_lines, health_command, health_line, health_result,
    render_unit, render_unit_in, require_active, systemctl, systemctl_result, systemd_dir_in,
    user_systemd_dir, whoami,
};
use research_ingest::job::{IngestJob, JobStatus};
use research_ingest::json::Json;
use research_ingest::mcp::{
    call_reply, extract_path, handle_message, hit_rows, incoming_rows, parse_error_reply,
    pending_rows, project_rows, safe_join, tool_defs, tools_call, vault_info, vault_path,
    wrote_text, Followed, Reaction, Tool,
};
use research_ingest::native::{
    bad_request_reply, frame, install_native_host, install_plan, native_reply, read_length,
    request_kind, text_payload, text_payload_at, NativeRequest, MESSAGE_LIMIT,
};
use research_ingest::report::{
    doctor_report, init_report, paths_report, paths_report_in, status_report,
};
use research_ingest::tools::{ToolProbe, ToolsConfig};
use research_ingest::vault::{Entry, Hit, VaultPaths};
use research_ingest::watch::{
    enqueues_changed, enqueues_existing, is_create_or_modify, react, start_plan, takes_source,
    ChangeKind, Deed, Heard,
};

fn some(s: &str) -> Option<String> {
    Some(s.to_string())
}

fn value(j: &Json) -> serde_json::Value {
    match j {
        Json::Null => serde_json::Value::Null,
        Json::Bool(b) => serde_json::Value::Bool(*b),
        Json::Number(n) => serde_json::from_str(n).unwrap(),
        Json::Text(s) => serde_json::Value::String(s.clone()),
        Json::List(v) => serde_json::Value::Array(v.iter().map(value).collect()),
        Json::Object(v) => {
            serde_json::Value::Object(v.iter().map(|(k, j)| (k.clone(), value(j))).collect())
        }
    }
}

fn json(v: &serde_json::Value) -> Json {
    match v {
        serde_json::Value::Null => Json::Null,
        serde_json::Value::Bool(b) => Json::Bool(*b),
        serde_json::Value::Number(n) => Json::Number(n.to_string()),
        serde_json::Value::String(s) => Json::Text(s.clone()),
        serde_json::Value::Array(a) => Json::List(a.iter().map(json).collect()),
        serde_json::Value::Object(m) => {
            Json::Object(m.iter().map(|(k, j)| (k.clone(), json(j))).collect())
        }
    }
}

fn parsed(s: &str) -> Json {
    json(&serde_json::from_str(s).unwrap())
}

fn shown(j: &Json) -> String {
    serde_json::to_string(&value(j)).unwrap()
}

fn replied(r: Reaction) -> String {
    match r {
        Reaction::Reply(j) => shown(&j),
        _ => panic!("no reply"),
    }
}

#[test]
fn messages_are_answered() {
    let ask = |s: &str| handle_message(&parsed(s));
    assert_eq!(
        replied(ask(r#"{"id":1,"method":"initialize"}"#)),
        r#"{"id":1,"jsonrpc":"2.0","result":{"capabilities":{"tools":{}},"protocolVersion":"2024-11-05","serverInfo":{"name":"research-mcp","version":"0.1.0-dev.1"}}}"#
    );
    assert_eq!(replied(ask(r#"{"id":"a","method":"ping"}"#)), r#"{"id":"a","jsonrpc":"2.0","result":{}}"#);
    assert_eq!(
        replied(ask(r#"{"id":1.5,"method":"what"}"#)),
        r#"{"error":{"code":-32601,"message":"method not found: what"},"id":1.5,"jsonrpc":"2.0"}"#
    );
    assert_eq!(
        replied(ask(r#"{"id":{"x":[1,null]}}"#)),
        r#"{"error":{"code":-32601,"message":"method not found: "},"id":{"x":[1,null]},"jsonrpc":"2.0"}"#
    );
    for quiet in [
        r#"{"method":"notifications/initialized"}"#,
        r#"{"id":3,"method":"initialized"}"#,
        r#"{"method":"ping"}"#,
        r#"{"id":null,"method":"tools/list"}"#,
        r#"{"method":"what"}"#,
        r#"[1]"#,
    ] {
        assert!(matches!(ask(quiet), Reaction::Ignore), "{quiet}");
    }
    let list = replied(ask(r#"{"id":1,"method":"tools/list"}"#));
    assert!(list.starts_with(r#"{"id":1,"jsonrpc":"2.0","result":{"tools":[{"description":"List research project slugs under wiki/projects.","inputSchema":{"properties":{},"type":"object"},"name":"list_projects"}"#));
    assert_eq!(
        shown(&parse_error_reply("bad")),
        r#"{"error":{"code":-32700,"message":"parse error: bad"},"id":null,"jsonrpc":"2.0"}"#
    );
}

#[test]
fn tools_are_offered() {
    let defs = tool_defs();
    let names: Vec<String> =
        defs.iter().map(|d| value(d)["name"].as_str().unwrap().to_string()).collect();
    assert_eq!(
        names,
        [
            "list_projects", "list_pending_jobs", "search_notes", "read_note", "write_note",
            "list_incoming", "vault_info", "read_extract"
        ]
    );
    assert_eq!(
        shown(&defs[2]),
        r#"{"description":"Search vault Markdown notes for a query string.","inputSchema":{"properties":{"limit":{"default":20,"type":"integer"},"query":{"type":"string"}},"required":["query"],"type":"object"},"name":"search_notes"}"#
    );
    assert_eq!(
        shown(&defs[3]),
        r#"{"description":"Read a note path relative to the vault root.","inputSchema":{"properties":{"path":{"description":"Relative path under the vault","type":"string"}},"required":["path"],"type":"object"},"name":"read_note"}"#
    );
    for d in &defs {
        let mut args = serde_json::Map::new();
        let v = value(d);
        if let Some(req) = v["inputSchema"]["required"].as_array() {
            for r in req {
                args.insert(
                    r.as_str().unwrap().to_string(),
                    serde_json::Value::String("x".to_string()),
                );
            }
        }
        let mut params = serde_json::Map::new();
        params.insert("name".to_string(), v["name"].clone());
        params.insert("arguments".to_string(), serde_json::Value::Object(args));
        assert!(tools_call(&json(&serde_json::Value::Object(params))).is_ok());
    }
}

#[test]
fn calls_are_understood() {
    let call = |s: &str| tools_call(&parsed(s));
    assert_eq!(call("{}").unwrap_err(), "missing tool name");
    assert_eq!(call(r#"{"name":"nope"}"#).unwrap_err(), "unknown tool: nope");
    assert_eq!(call(r#"{"name":"search_notes"}"#).unwrap_err(), "query required");
    assert_eq!(call(r#"{"name":"read_note","arguments":{"path":1}}"#).unwrap_err(), "path required");
    assert_eq!(call(r#"{"name":"write_note","arguments":{"content":"c"}}"#).unwrap_err(), "path required");
    assert_eq!(call(r#"{"name":"write_note","arguments":{"path":"p"}}"#).unwrap_err(), "content required");
    assert_eq!(call(r#"{"name":"read_extract"}"#).unwrap_err(), "job_id required");
    let limit = |s: &str| match call(&format!(r#"{{"name":"search_notes","arguments":{{"query":"q","limit":{s}}}}}"#)).unwrap() {
        Tool::SearchNotes(q, n) => {
            assert_eq!(q, "q");
            n
        }
        _ => panic!("another tool"),
    };
    assert_eq!(limit("5"), 5);
    assert_eq!(limit("-5"), 20);
    assert_eq!(limit("5.0"), 20);
    assert_eq!(limit("\"5\""), 20);
    assert_eq!(limit("18446744073709551615"), u64::MAX);
    let msg = parsed(r#"{"id":7,"method":"tools/call","params":{"name":"vault_info"}}"#);
    assert!(matches!(handle_message(&msg), Reaction::Call(Ok(Tool::VaultInfo))));
    assert!(matches!(
        handle_message(&parsed(r#"{"id":7,"method":"tools/call"}"#)),
        Reaction::Call(Err(_))
    ));
    assert_eq!(
        shown(&call_reply(&msg, &Ok("t".to_string())).unwrap()),
        r#"{"id":7,"jsonrpc":"2.0","result":{"content":[{"text":"t","type":"text"}],"isError":false}}"#
    );
    assert_eq!(
        shown(&call_reply(&msg, &Err("e".to_string())).unwrap()),
        r#"{"error":{"code":-32000,"message":"e"},"id":7,"jsonrpc":"2.0"}"#
    );
    let quiet = parsed(r#"{"method":"tools/call","params":{"name":"vault_info"}}"#);
    assert!(matches!(handle_message(&quiet), Reaction::Call(Ok(_))));
    assert!(call_reply(&quiet, &Ok("t".to_string())).is_none());
}

fn job(path: &str, id: u128, secs: i64, status: JobStatus) -> IngestJob {
    let mut j = IngestJob::new_at(path.to_string(), id, Timestamp { secs, nanos: 0 });
    j.status = status;
    j
}

#[test]
fn rows_of_tools() {
    let mut failed = job("/a", 1, 2, JobStatus::Failed);
    failed.title = some("T");
    let rows = pending_rows(vec![failed, job("/b", 2, 1, JobStatus::Pending), job("/c", 3, 0, JobStatus::Done)]);
    assert_eq!(
        shown(&rows),
        r#"[{"id":"00000000-0000-0000-0000-000000000002","project":null,"source":"/b","status":"Pending","title":null},{"id":"00000000-0000-0000-0000-000000000001","project":null,"source":"/a","status":"Failed","title":"T"}]"#
    );
    let hits = vec![Hit { path: "a.md".to_string(), snippet: "s".to_string() }];
    assert_eq!(shown(&hit_rows(&hits)), r#"[{"path":"a.md","snippet":"s"}]"#);
    let v = VaultPaths::new("/v".to_string());
    assert_eq!(
        shown(&vault_info(&v, 2, 3)),
        r#"{"incoming":"/v/raw/incoming","jobs_total":3,"projects_count":2,"vault":"/v"}"#
    );
    assert_eq!(extract_path(&v, "x"), "/v/raw/extracts/x.md");
    assert_eq!(shown(&incoming_rows(vec!["b".to_string(), "a".to_string()])), r#"["a","b"]"#);
    let e = vec![Entry { name: "p".to_string(), is_dir: true }, Entry { name: "f".to_string(), is_dir: false }];
    assert_eq!(shown(&project_rows(&e)), r#"["p"]"#);
}

#[test]
fn paths_stay_in_the_vault() {
    assert_eq!(vault_path("/v", "/a/b.md"), Ok("/v/a/b.md".to_string()));
    assert_eq!(vault_path("/v", "a/../b"), Err("path must not contain ..".to_string()));
    assert_eq!(vault_path("/v", "a..b"), Err("path must not contain ..".to_string()));
    let seen = |path: Option<&str>, parent: Option<&str>| Followed {
        root: "/real/v".to_string(),
        path: path.map(|s| s.to_string()),
        parent: parent.map(|s| s.to_string()),
    };
    assert_eq!(safe_join("/v", "a.md", &seen(Some("/real/v/a.md"), None)), Ok("/real/v/a.md".to_string()));
    assert_eq!(safe_join("/v", "a.md", &seen(Some("/etc/x"), None)), Err("path escapes vault".to_string()));
    assert_eq!(safe_join("/v", "a.md", &seen(Some("/real/vault"), None)), Err("path escapes vault".to_string()));
    assert_eq!(safe_join("/v", "n/a.md", &seen(None, Some("/real/v/n"))), Ok("/v/n/a.md".to_string()));
    assert_eq!(safe_join("/v", "n/a.md", &seen(None, Some("/etc"))), Err("path escapes vault".to_string()));
    assert_eq!(safe_join("/v", "n/a.md", &seen(None, None)), Ok("/v/n/a.md".to_string()));
    assert_eq!(wrote_text("/v/a.md"), "wrote /v/a.md");
    assert_eq!(safe_join("/v", "..", &seen(None, None)), Err("path must not contain ..".to_string()));
}

#[test]
fn written_notes_are_read() {
    let mut files = std::collections::BTreeMap::new();
    for content in ["first", "second é"] {
        let write = parsed(&format!(
            r#"{{"name":"write_note","arguments":{{"path":"n/a.md","content":"{content}"}}}}"#
        ));
        let read = parsed(r#"{"name":"read_note","arguments":{"path":"n/a.md"}}"#);
        let look = |files: &std::collections::BTreeMap<String, String>, rel: &str| {
            let path = vault_path("/v", rel).unwrap();
            let seen = Followed {
                root: "/v".to_string(),
                path: if files.contains_key(&path) { Some(path) } else { None },
                parent: None,
            };
            safe_join("/v", rel, &seen).unwrap()
        };
        match tools_call(&write) {
            Ok(Tool::WriteNote(rel, body)) => files.insert(look(&files, &rel), body),
            _ => panic!("no write"),
        };
        let text = match tools_call(&read) {
            Ok(Tool::ReadNote(rel)) => files[&look(&files, &rel)].clone(),
            _ => panic!("no read"),
        };
        assert_eq!(text, content);
        assert_eq!(
            shown(&call_reply(&parsed(r#"{"id":1}"#), &Ok(text)).unwrap()),
            format!(
                r#"{{"id":1,"jsonrpc":"2.0","result":{{"content":[{{"text":"{content}","type":"text"}}],"isError":false}}}}"#
            )
        );
    }
}

#[test]
fn native_messages() {
    let m = b"{}".to_vec();
    let f = frame(&m);
    assert_eq!(f, [2, 0, 0, 0, b'{', b'}']);
    let long = vec![7u8; 70_000];
    let f = frame(&long);
    assert_eq!(read_length(&[f[0], f[1], f[2], f[3]]), Ok(70_000));
    assert_eq!(&f[4..], &long[..]);
    assert_eq!(read_length(&[0, 0, 0, 0]), Err("invalid native message length 0".to_string()));
    assert_eq!(read_length(&MESSAGE_LIMIT.to_le_bytes()), Ok(64 * 1024 * 1024));
    assert_eq!(
        read_length(&(MESSAGE_LIMIT + 1).to_le_bytes()),
        Err("invalid native message length 67108865".to_string())
    );
    assert_eq!(request_kind(Some("ping")), NativeRequest::Ping);
    assert_eq!(request_kind(Some("send")), NativeRequest::Send);
    assert_eq!(request_kind(None), NativeRequest::Send);
    let r = native_reply(true, &some("/p"), &None);
    assert_eq!(&r[4..], b"{\"ok\":true,\"path\":\"/p\",\"error\":null}");
    assert_eq!(r[0] as usize, r.len() - 4);
    assert_eq!(&bad_request_reply("e")[4..], b"{\"ok\":false,\"path\":null,\"error\":\"bad request: e\"}");
    let p = text_payload_at("t".to_string(), some("u"), None, Timestamp { secs: 0, nanos: 0 });
    assert_eq!(p.selection.as_deref(), Some("t"));
    assert_eq!(p.content_type.as_deref(), Some("selection"));
    assert_eq!(p.captured_at.as_deref(), Some("1970-01-01T00:00:00+00:00"));
    assert_eq!(text_payload("t".to_string(), None, some("T")).title.as_deref(), Some("T"));
}

#[test]
fn the_host_is_installed() {
    let p = install_plan("/bin/rs", "abc", "/h", "/c");
    assert_eq!(p.dirs[0], "/h/.config/BraveSoftware/Brave-Browser/NativeMessagingHosts");
    assert_eq!(
        p.manifest_paths[2],
        "/h/.config/google-chrome/NativeMessagingHosts/dev.theesfeld.research_send.json"
    );
    assert_eq!((p.shim_dir.as_str(), p.shim_path.as_str()), ("/c", "/c/native-host.sh"));
    assert_eq!(p.shim_body, "#!/bin/sh\nexec \"/bin/rs\" host\n");
    assert_eq!(
        shown(&p.manifest),
        r#"{"allowed_origins":["chrome-extension://abc/"],"description":"research-send native host for Grok research ingest","name":"dev.theesfeld.research_send","path":"/c/native-host.sh","type":"stdio"}"#
    );
    assert_eq!(value(&p.program_manifest)["path"], "/bin/rs");
    match install_native_host("/bin/rs", "abc") {
        Ok(q) => assert!(q.shim_path.ends_with("/native-host.sh")),
        Err(e) => assert_eq!(e, "home directory"),
    }
}

#[test]
fn the_watcher_reacts() {
    assert_eq!(react(Heard::Change(ChangeKind::Create)), Deed::Gather);
    assert_eq!(react(Heard::Change(ChangeKind::Any)), Deed::Gather);
    assert_eq!(react(Heard::Change(ChangeKind::Remove)), Deed::Wait);
    assert_eq!(react(Heard::Error), Deed::Wait);
    assert_eq!(react(Heard::Silence(true)), Deed::DrainOne);
    assert_eq!(react(Heard::Silence(false)), Deed::Wait);
    assert_eq!(react(Heard::Closed), Deed::Stop);
    assert!(is_create_or_modify(ChangeKind::Modify) && !is_create_or_modify(ChangeKind::Access));
    let s = start_plan(false, true, true);
    assert!(s.drain_first && !s.watch && !s.serve);
    let s = start_plan(true, false, true);
    assert!(s.drain_first && s.watch && s.serve);
    let s = start_plan(false, false, false);
    assert!(!s.drain_first && s.watch && !s.serve);
    assert!(takes_source("/v/a.md", true) && !takes_source("/v/a.md", false));
    assert!(!takes_source("/v/README.md", true) && takes_source("/v/readme.md", true));
    assert!(enqueues_changed("/v/a", true, None) && !enqueues_changed("/v/a", true, Some(true)));
    assert!(enqueues_changed("/v/a", true, Some(false)));
    assert!(enqueues_existing("/v/a", true, false, None));
    assert!(!enqueues_existing("/v/a", true, true, None));
    assert!(!enqueues_existing("/v/a", true, false, Some(true)));
}

fn out(success: bool, stdout: &str, stderr: &str) -> ProgramOutput {
    ProgramOutput {
        success,
        code: None,
        stdout: stdout.as_bytes().to_vec(),
        stderr: stderr.as_bytes().to_vec(),
    }
}

#[test]
fn the_service_is_enabled() {
    let u = render_unit_in(Some("/h"), "me");
    assert!(u.contains("\nExecStart=/h/.cargo/bin/research-ingest watch\n"));
    assert!(u.contains("\nEnvironment=PATH=/h/.cargo/bin:/h/.nix-profile/bin:/h/.local/bin:/etc/profiles/per-user/me/bin:/run/current-system/sw/bin:/usr/local/bin:/usr/bin:/bin\nEnvironment=HOME=/h\n"));
    assert!(u.contains("\nEnvironment=XAI_API_KEY=\n"));
    assert!(render_unit_in(None, "me").contains("ExecStart=%h/.cargo"));
    assert!(render_unit("me").contains("/per-user/me/bin"));
    assert_eq!(systemd_dir_in(Some("/h")), Ok("/h/.config/systemd/user".to_string()));
    assert_eq!(systemd_dir_in(None), Err("home directory".to_string()));
    match user_systemd_dir() {
        Ok(d) => assert!(d.ends_with("/.config/systemd/user")),
        Err(e) => assert_eq!(e, "home directory"),
    }
    assert_eq!(whoami(some("u"), some("l")), "u");
    assert_eq!(whoami(None, some("l")), "l");
    assert_eq!(whoami(None, None), "glenda");
    let steps = enable_steps();
    assert_eq!(steps[0], ["daemon-reload"]);
    assert_eq!(steps[1], ["enable", "--now", "research-ingest.service"]);
    let c = systemctl(&steps[1]);
    assert_eq!((c.program.as_str(), c.args[0].as_str(), c.args.len()), ("systemctl", "--user", 4));
    assert_eq!(systemctl_result(&steps[1], true), Ok(()));
    assert_eq!(
        systemctl_result(&steps[1], false),
        Err("systemctl enable --now research-ingest.service failed".to_string())
    );
    assert_eq!(require_active(b"active\n"), Ok(()));
    assert_eq!(
        require_active(b"failed\n"),
        Err("service is not active (got 'failed'). Check: systemctl --user status research-ingest.service".to_string())
    );
    assert_eq!(health_command("a:1").args, ["-fsS", "--max-time", "2", "http://a:1/health"]);
    assert_eq!(health_result(&out(true, " ok\n", "")), Ok("ok".to_string()));
    assert_eq!(health_result(&out(false, "", "no\n")), Err("no\n".to_string()));
    assert_eq!(health_line("a:1", &Ok("b".to_string())), "health: b");
    assert_eq!(
        health_line("a:1", &Err("e".to_string())),
        "health: not ready yet (e) — wait a second and retry curl http://a:1/health"
    );
    let mut c = Config::default_in(Some("/h"));
    c.vault_path = "/v".to_string();
    let lines = enabled_lines(&c, "/u");
    assert_eq!(lines[0], "service: active (research-ingest.service)");
    assert_eq!(lines[3], "incoming:/v/raw/incoming");
    assert_eq!(lines.len(), 6);
    c.listen_http = false;
    assert_eq!(enabled_lines(&c, "/u").len(), 4);
    assert_eq!(daily_lines("a:1")[1], "  • Bookmark: open http://a:1/send once, drag button to bookmarks bar");
}

#[test]
fn reports() {
    let mut c = Config::default_in(Some("/h"));
    c.vault_path = "/v".to_string();
    let t = ToolsConfig::default().resolve(&ToolProbe {
        home: None,
        state_dir: "/s".to_string(),
        files: Vec::new(),
        found: Vec::new(),
        model_entries: Vec::new(),
    });
    let d = doctor_report(&c, &t, true, "/s");
    assert_eq!(d[..5], ["vault=/v", "ai_backend=GrokSession", "grok_binary=grok", "grok_binary_found=yes", "grok_max_retries=2"]);
    assert_eq!(d.last().unwrap(), "models_dir=/s/models");
    assert_eq!(d.len(), 5 + t.doctor_lines_in("/s").len() + 1);
    assert_eq!(doctor_report(&c, &t, false, "/s")[3], "grok_binary_found=no");
    let i = init_report(&c, Some("/p"), "/m", "/c", "/q");
    assert_eq!(i[0], "Prompt:  /p");
    assert_eq!(i[4], "Incoming:/v/raw/incoming");
    assert!(i.last().unwrap().starts_with("Note: language work uses"));
    c.ai_backend = AiBackend::QueueOnly;
    let i = init_report(&c, None, "/m", "/c", "/q");
    assert_eq!(i[0], "Models:  /m");
    assert_eq!(i.last().unwrap(), "Grok bin:grok");
    assert_eq!(
        paths_report_in(&c, "/c"),
        [
            "vault_path=/v", "incoming=/v/raw/incoming", "processed=/v/raw/processed",
            "projects=/v/wiki/projects", "config=/c", "ai_backend=QueueOnly"
        ]
    );
    assert!(paths_report(&c)[4].ends_with("config.toml"));
    let mut jobs = Vec::new();
    for k in 0..12 {
        jobs.push(job("/a", k, 100 - k as i64, if k == 0 { JobStatus::Pending } else { JobStatus::Done }));
    }
    jobs[0].project_slug = some("p");
    let s = status_report(&c, jobs);
    assert_eq!(s[..4], ["vault=/v", "jobs_total=12", "  Done=11", "  Pending=1"]);
    assert_eq!(s.len(), 4 + 10);
    assert_eq!(s[4], "- 00000000-0000-0000-0000-000000000000 Pending /a p");
    assert_eq!(s[5], "- 00000000-0000-0000-0000-000000000001 Done /a -");
    assert_eq!(status_report(&c, Vec::new()).len(), 2);
}
