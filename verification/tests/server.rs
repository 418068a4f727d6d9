use research_ingest::clock::Timestamp;
use research_ingest::config::Config;
use research_ingest::drop_server::{
    accept_bytes, accept_form, accept_form_at, outcome_text, page_reply, preflight, raw_payload_at,
    route, send_reply, DropState, Routed, VERSION,
};
use research_ingest::extract::BrowserPayload;
use research_ingest::form::{
    can_decode, can_parse_form, parse_form, url_decode, url_encode_component,
};
use research_ingest::http::{
    find_header_end, html_response, json_response, parse_content_length, parse_header,
    parse_request_line, receive_first, response_bytes, Received, Receiving, Request, Response,
    BODY_LIMIT,
};
use research_ingest::pages::{
    bookmarklet_href, bookmarklet_js, failure_page, html_escape, install_page, success_page,
};

fn state() -> DropState {
    let mut c = Config::default_in(Some("/h"));
    c.vault_path = "/v \"q\"".to_string();
    DropState::open(&c, true).unwrap()
}

fn request(method: &str, path: &str, content_type: &str) -> Request {
    Request {
        method: method.to_string(),
        path: path.to_string(),
        content_type: content_type.to_string(),
        body: Vec::new(),
    }
}

fn reply(r: Routed) -> Response {
    match r {
        Routed::Reply(a) => a,
        _ => panic!("no reply"),
    }
}

fn now() -> Timestamp {
    Timestamp { secs: 1_700_000_000, nanos: 0 }
}

fn text(b: &[u8]) -> String {
    String::from_utf8(b.to_vec()).unwrap()
}

#[test]
fn only_this_machine_is_served() {
    let c = Config::default_in(Some("/h"));
    assert_eq!(
        DropState::open(&c, false).unwrap_err(),
        "listen_addr must be loopback for safety (got 127.0.0.1:18765)"
    );
    assert_eq!(DropState::open(&c, true).unwrap().listen_addr, "127.0.0.1:18765");
}

#[test]
fn heads_of_requests() {
    assert_eq!(find_header_end(b"a\r\n\r\nb"), Some(5));
    assert_eq!(find_header_end(b"\r\n\r\n"), Some(4));
    assert_eq!(find_header_end(b"a\r\n\r"), None);
    assert_eq!(find_header_end(b""), None);
    assert_eq!(parse_content_length("GET /\r\nCONTENT-Length: 12 \r\n"), Some(12));
    assert_eq!(parse_content_length("content-length: x\r\ncontent-length: 1\r\n"), None);
    assert_eq!(parse_content_length("host: a\r\n"), None);
    assert_eq!(parse_header("A: 1\r\ncontent-TYPE :  t/x; c=d \r\n", "Content-Type").as_deref(), Some("t/x; c=d"));
    assert_eq!(parse_header("A: 1\r\n", "b"), None);
    let line = |l: &str| parse_request_line(l);
    assert_eq!(line("POST /send?x=1 HTTP/1.1"), ("POST".to_string(), "/send".to_string()));
    assert_eq!(line(""), ("GET".to_string(), "/".to_string()));
    assert_eq!(line("PUT"), ("PUT".to_string(), "/".to_string()));
}

fn complete(r: Received) -> Request {
    match r {
        Received::Complete(q) => q,
        _ => panic!("not complete"),
    }
}

fn more(r: Received) -> Receiving {
    match r {
        Received::More(m) => m,
        _ => panic!("not waiting"),
    }
}

fn refused(r: Received) -> Response {
    match r {
        Received::Refused(a) => a,
        _ => panic!("not refused"),
    }
}

#[test]
fn requests_are_received_in_pieces() {
    let head = "POST /send HTTP/1.1\r\nContent-Type: text/plain\r\nContent-Length: 6\r\n\r\n";
    let whole = format!("{head}abcdefgh");
    let q = complete(receive_first(whole.as_bytes()));
    assert_eq!((q.method.as_str(), q.path.as_str()), ("POST", "/send"));
    assert_eq!(q.content_type, "text/plain");
    assert_eq!(q.body, b"abcdef");
    let m = more(receive_first(format!("{head}ab").as_bytes()));
    let m = more(m.receive(b"cd"));
    assert_eq!(complete(m.receive(b"efgh")).body, b"abcdef");
    let m = more(receive_first(format!("{head}ab").as_bytes()));
    assert_eq!(complete(m.receive(b"")).body, b"ab");
    assert!(matches!(receive_first(b""), Received::Nothing));
    let r = refused(receive_first(b"GET / HTTP/1.1\r\n"));
    assert_eq!(r.code, 400);
    assert_eq!(text(&r.body), "<html><body><h1>Incomplete request</h1></body></html>");
    let q = complete(receive_first(b"GET /health HTTP/1.1\r\n\r\nrest"));
    assert!(q.body.is_empty() && q.content_type.is_empty());
    let q = complete(receive_first(b"POST /send \xff\r\nContent-Length: 3\r\n\r\nabc"));
    assert_eq!((q.method.as_str(), q.path.as_str()), ("GET", "/"));
}

#[test]
fn large_bodies_are_refused() {
    let head = format!("POST /send HTTP/1.1\r\nContent-Length: {}\r\n\r\n", BODY_LIMIT + 10);
    let m = more(receive_first(head.as_bytes()));
    let m = more(m.receive(&vec![0u8; BODY_LIMIT]));
    let r = refused(m.receive(&[1]));
    assert_eq!(r.code, 413);
    assert_eq!(text(&r.body), "<html><body><h1>Payload too large</h1></body></html>");
}

#[test]
fn responses_as_bytes() {
    let r = html_response(404, "é");
    assert_eq!(
        text(&response_bytes(&r)),
        "HTTP/1.1 404 Not Found\r\nContent-Type: text/html; charset=utf-8\r\nAccess-Control-Allow-Origin: *\r\nContent-Length: 2\r\nConnection: close\r\n\r\né"
    );
    for (code, reason) in [
        (200u16, "OK"),
        (204, "No Content"),
        (400, "Bad Request"),
        (413, "Payload Too Large"),
        (500, "Error"),
    ] {
        let head = text(&response_bytes(&json_response(code, "{}")));
        assert!(head.starts_with(&format!("HTTP/1.1 {code} {reason}\r\nContent-Type: application/json")));
    }
    assert!(text(&preflight()).starts_with("HTTP/1.1 204 No Content\r\nAccess-Control-Allow-Origin: *\r\nAccess-Control-Allow-Methods: GET, POST, OPTIONS\r\n"));
    assert!(text(&preflight()).ends_with("Content-Length: 0\r\nConnection: close\r\n\r\n"));
}

#[test]
fn requests_are_routed() {
    let s = state();
    assert!(matches!(route(&s, &request("OPTIONS", "/send", "")), Routed::Preflight));
    let health = reply(route(&s, &request("GET", "/health", "")));
    assert_eq!(
        text(&health.body),
        format!("{{\"incoming\":\"/v \\\"q\\\"/raw/incoming\",\"ok\":true,\"service\":\"research-ingest\",\"version\":\"{VERSION}\"}}")
    );
    let parsed: serde_json::Value = serde_json::from_slice(&health.body).unwrap();
    assert_eq!(parsed["ok"], serde_json::Value::Bool(true));
    for p in ["/", "/send", "/install"] {
        let r = reply(route(&s, &request("GET", p, "")));
        assert_eq!(text(&r.body), install_page(&s.listen_addr));
    }
    let js = reply(route(&s, &request("GET", "/bookmarklet.js", "")));
    assert_eq!(js.content_type, "application/javascript; charset=utf-8");
    assert_eq!(text(&js.body), bookmarklet_js(&s.listen_addr));
    for p in ["/send", "/drop"] {
        assert!(matches!(route(&s, &request("POST", p, "application/json")), Routed::Store));
        assert!(matches!(
            route(&s, &request("POST", p, "application/x-www-form-urlencoded; charset=utf-8")),
            Routed::StoreForm
        ));
    }
    assert!(matches!(route(&s, &request("POST", "/send-form", "")), Routed::StorePage));
    for (m, p) in [("GET", "/x"), ("POST", "/health"), ("PUT", "/send"), ("get", "/")] {
        let r = reply(route(&s, &request(m, p, "")));
        assert_eq!(r.code, 404);
        assert!(text(&r.body).contains("Not found"));
    }
}

#[test]
fn addresses_are_encoded_and_read_back() {
    assert_eq!(url_encode_component("a b+é(~)"), "a%20b%2B%C3%A9(~)");
    for s in ["", "plain", "a&b=c+d %41", "é€😀\u{0}\n\"'<>", "100%"] {
        let e = url_encode_component(s);
        assert!(can_decode(&e));
        assert_eq!(url_decode(&e), s);
    }
    assert_eq!(url_decode("a+b%2Bc%zz%4"), "a b+c%zz%4");
    assert_eq!(url_decode("%ff"), "\u{fffd}");
    assert_eq!(url_decode("%é"), "%é");
    assert!(!can_decode("%aé"));
    assert!(!can_decode("x%€"));
    assert!(can_decode("%C3%A9"));
}

#[test]
fn forms_are_read() {
    let body = b"title=A+B&&url=&title=C%26D&flag&x=1=2";
    assert!(can_parse_form(body));
    let f = parse_form(body);
    assert_eq!(f.get("title").as_deref(), Some("C&D"));
    assert_eq!(f.get("url").as_deref(), Some(""));
    assert_eq!(f.get_filled("url"), None);
    assert_eq!(f.get("flag").as_deref(), Some(""));
    assert_eq!(f.get("x").as_deref(), Some("1=2"));
    assert_eq!(f.get("none"), None);
    assert!(!can_parse_form("a=%aé".as_bytes()));
    assert!(can_parse_form(b""));
    let fields = [("k&", "v=+%"), ("", "é"), ("k&", "last")];
    let sent: Vec<String> = fields
        .iter()
        .map(|(k, v)| format!("{}={}", url_encode_component(k), url_encode_component(v)))
        .collect();
    let f = parse_form(sent.join("&").as_bytes());
    assert_eq!(f.get("k&").as_deref(), Some("last"));
    assert_eq!(f.get("").as_deref(), Some("é"));
}

#[test]
fn what_is_sent_is_stored() {
    let p = accept_form_at(b"title=T&page_text=&selection=s", now());
    assert_eq!(p.title.as_deref(), Some("T"));
    assert_eq!(p.selection.as_deref(), Some("s"));
    assert!(p.page_text.is_none() && p.url.is_none() && p.extra.is_none());
    assert_eq!(p.content_type.as_deref(), Some("bookmarklet"));
    assert_eq!(p.captured_at.as_deref(), Some("2023-11-14T22:13:20+00:00"));
    let p = accept_form(b"content_type=&captured_at=x&url=u&image_url=i&page_markdown=m");
    assert_eq!(p.content_type.as_deref(), Some(""));
    assert_eq!(p.captured_at.as_deref(), Some("x"));
    assert_eq!(p.page_markdown.as_deref(), Some("m"));
    let raw = raw_payload_at(b"hello", now());
    assert_eq!(raw.title.as_deref(), Some("clip"));
    assert_eq!(raw.selection.as_deref(), Some("hello"));
    assert_eq!(raw.content_type.as_deref(), Some("raw"));
    let parsed = BrowserPayload { title: Some("own".to_string()), ..raw.clone() };
    assert_eq!(accept_bytes(Some(parsed), b"x").title.as_deref(), Some("own"));
    assert_eq!(accept_bytes(None, b"x").selection.as_deref(), Some("x"));
}

#[test]
fn outcomes_are_told() {
    let ok: Result<String, String> = Ok("/v/a\n.json".to_string());
    let bad: Result<String, String> = Err("no \"disk\"".to_string());
    let r = send_reply(&ok);
    assert_eq!((r.code, text(&r.body)), (200, "{\"ok\":true,\"path\":\"/v/a\\n.json\",\"error\":null}".to_string()));
    let r = send_reply(&bad);
    assert_eq!(
        (r.code, text(&r.body)),
        (400, "{\"ok\":false,\"path\":null,\"error\":\"no \\\"disk\\\"\"}".to_string())
    );
    let r = page_reply(&ok);
    assert_eq!((r.code, text(&r.body)), (200, success_page("/v/a\n.json")));
    let r = page_reply(&bad);
    assert_eq!((r.code, text(&r.body)), (400, failure_page("no \"disk\"")));
    let odd: String = (0u8..0x80).map(|b| b as char).chain("é😀\u{7f}".chars()).collect();
    let json = outcome_text(true, &Some(odd.clone()), &None);
    let value: serde_json::Value = serde_json::from_str(&json).unwrap();
    assert_eq!(value["path"], serde_json::Value::String(odd));
    assert!(json.contains("\\u0001") && json.contains("\\u001f") && json.contains("\\b"));
}

#[test]
fn pages_are_made() {
    let js = bookmarklet_js("127.0.0.1:1");
    assert!(js.starts_with("(function(){\nvar A='http://127.0.0.1:1/send-form';\n"));
    assert!(js.contains("catch(e){}\n"));
    assert!(js.ends_with("},500);\n})();"));
    let href = bookmarklet_href("127.0.0.1:1");
    assert_eq!(url_decode(href.strip_prefix("javascript:").unwrap()), js);
    let page = install_page("127.0.0.1:1");
    assert!(page.contains("<code>http://127.0.0.1:1</code>"));
    assert!(page.contains(&format!("href=\"{}\"", html_escape(&href))));
    assert!(page.contains(&format!("textContent = {};\n", serde_json::to_string(&js).unwrap())));
    assert!(page.ends_with("</script>\n</body>\n</html>\n"));
    assert_eq!(html_escape("<a href=\"x\">&amp;</a>"), "&lt;a href=&quot;x&quot;&gt;&amp;amp;&lt;/a&gt;");
    assert!(success_page("<p>").contains("<code>&lt;p&gt;</code>"));
    assert!(failure_page("<e>").contains("<pre>&lt;e&gt;</pre>"));
}
