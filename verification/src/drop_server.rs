//! Localhost HTTP drop for always-on send (bookmarklet, extension, CLI): what each
//! request is answered, and what is stored of it.

use vstd::prelude::*;
use vstd::string::*;
use vstd::utf8::*;

use crate::paths;
use crate::bytes;
use crate::clock;
use crate::clock::Timestamp;
use crate::config::Config;
use crate::extract;
use crate::extract::{glue, BrowserPayload};
use crate::form;
use crate::form::parse_form;
use crate::http::{html_response, json_response, Request, Response};
use crate::json;
use crate::pages;
use crate::search;
use crate::text;
use crate::vault;
use crate::vault::VaultPaths;

verus! {

/// The version that is reported.
pub const VERSION: &'static str = "0.1.0-dev.1";

/// What the drop server needs to know.
#[derive(Debug, Clone)]
pub struct DropState {
    pub vault: VaultPaths,
    pub listen_addr: String,
}

/// The server is opened for the settings given, on this machine only.
pub open spec fn rightly_opened(r: Result<DropState, String>, cfg: Config, loopback: bool) -> bool {
    match r {
        Ok(s) => loopback && s.vault.root@ == cfg.vault_path@ && s.listen_addr@ == cfg.listen_addr@,
        Err(e) => !loopback && e@ == "listen_addr must be loopback for safety (got "@
            + cfg.listen_addr@ + ")"@,
    }
}

impl DropState {
    /// A server for the settings given. It listens on this machine only: `loopback`
    /// tells whether the configured address is one of it.
    pub fn open(cfg: &Config, loopback: bool) -> (r: Result<DropState, String>)
        ensures
            rightly_opened(r, *cfg, loopback),
    {
        if !loopback {
            let mut e = glue(
                "listen_addr must be loopback for safety (got ",
                cfg.listen_addr.as_str(),
            );
            e.append(")");
            return Err(e);
        }
        Ok(
            DropState {
                vault: VaultPaths::new(cfg.vault_path.clone()),
                listen_addr: cfg.listen_addr.clone(),
            },
        )
    }
}

/// What is done about a request.
#[derive(Debug, Clone)]
pub enum Routed {
    /// It is answered at once.
    Reply(Response),
    /// It asks what is allowed.
    Preflight,
    /// It sends an envelope, or some text.
    Store,
    /// It sends a form and wants JSON back.
    StoreForm,
    /// It sends a form and wants a page back.
    StorePage,
}

/// The state of the server as JSON.
pub open spec fn health_json(root: Seq<char>) -> Seq<char> {
    "{\"incoming\":"@ + json::json_text(vault::two_below(root, "raw"@, "incoming"@))
        + ",\"ok\":true,\"service\":\"research-ingest\",\"version\":"@ + json::json_text(VERSION@)
        + "}"@
}

fn health_text(vault: &VaultPaths) -> (r: String)
    ensures
        r@ == health_json(vault.root@),
{
    let mut s = glue("{\"incoming\":", json::quoted(vault.incoming().as_str()).as_str());
    s.append(",\"ok\":true,\"service\":\"research-ingest\",\"version\":");
    s.append(json::quoted(VERSION).as_str());
    s.append("}");
    s
}

/// What is done about a request is right.
pub open spec fn rightly_routed(r: Routed, state: DropState, q: Request) -> bool {
    let m = q.method@;
    let p = q.path@;
    if m == "OPTIONS"@ {
        r is Preflight
    } else if m == "GET"@ && p == "/health"@ {
        r matches Routed::Reply(a) && a.is_json(200, health_json(state.vault.root@))
    } else if m == "GET"@ && (p == "/"@ || p == "/send"@ || p == "/install"@) {
        r matches Routed::Reply(a) && a.is_html(200, pages::install_text(state.listen_addr@))
    } else if m == "GET"@ && p == "/bookmarklet.js"@ {
        r matches Routed::Reply(a) && a.code == 200 && a.content_type@
            == "application/javascript; charset=utf-8"@ && a.body@ == encode_utf8(
            pages::bookmarklet_text(state.listen_addr@),
        )
    } else if m == "POST"@ && (p == "/send"@ || p == "/drop"@) {
        if search::occurs(q.content_type@, "application/x-www-form-urlencoded"@) {
            r is StoreForm
        } else {
            r is Store
        }
    } else if m == "POST"@ && p == "/send-form"@ {
        r is StorePage
    } else {
        r matches Routed::Reply(a) && a.is_html(
            404,
            "<html><body><h1>Not found</h1><p>See <a href='/send'>/send</a></p></body></html>"@,
        )
    }
}

/// Decides what is done about a request.
pub fn route(state: &DropState, q: &Request) -> (r: Routed)
    ensures
        rightly_routed(r, *state, *q),
{
    let m = q.method.as_str();
    let p = q.path.as_str();
    if text::same(m, "OPTIONS") {
        return Routed::Preflight;
    }
    let get = text::same(m, "GET");
    let post = text::same(m, "POST");
    if get && text::same(p, "/health") {
        return Routed::Reply(json_response(200, health_text(&state.vault).as_str()));
    }
    if get && (text::same(p, "/") || text::same(p, "/send") || text::same(p, "/install")) {
        let page = pages::install_page(state.listen_addr.as_str());
        return Routed::Reply(html_response(200, page.as_str()));
    }
    if get && text::same(p, "/bookmarklet.js") {
        let js = pages::bookmarklet_js(state.listen_addr.as_str());
        return Routed::Reply(
            Response {
                code: 200,
                content_type: "application/javascript; charset=utf-8".to_owned(),
                body: bytes::bytes_of(js.as_str()),
            },
        );
    }
    if post && (text::same(p, "/send") || text::same(p, "/drop")) {
        if search::contains(q.content_type.as_str(), "application/x-www-form-urlencoded") {
            return Routed::StoreForm;
        }
        return Routed::Store;
    }
    if post && text::same(p, "/send-form") {
        return Routed::StorePage;
    }
    proof {
        reveal_strlit("GET");
        reveal_strlit("POST");
    }
    Routed::Reply(
        html_response(
            404,
            "<html><body><h1>Not found</h1><p>See <a href='/send'>/send</a></p></body></html>",
        ),
    )
}

/// The answer to a request that asks what is allowed.
pub fn preflight() -> (r: Vec<u8>)
    ensures
        r@ == encode_utf8(
            "HTTP/1.1 204 No Content\r\nAccess-Control-Allow-Origin: *\r\nAccess-Control-Allow-Methods: GET, POST, OPTIONS\r\nAccess-Control-Allow-Headers: content-type\r\nContent-Length: 0\r\nConnection: close\r\n\r\n"@,
        ),
{
    bytes::bytes_of(
        "HTTP/1.1 204 No Content\r\nAccess-Control-Allow-Origin: *\r\nAccess-Control-Allow-Methods: GET, POST, OPTIONS\r\nAccess-Control-Allow-Headers: content-type\r\nContent-Length: 0\r\nConnection: close\r\n\r\n",
    )
}

/// The envelope holds raw text that was sent.
pub open spec fn is_raw_payload(p: BrowserPayload, body: Seq<u8>, now: Timestamp) -> bool {
    &&& text::opt_view(p.title) == Some("clip"@)
    &&& p.url is None
    &&& text::opt_view(p.selection) == Some(bytes::text_of(body))
    &&& p.page_markdown is None
    &&& p.page_text is None
    &&& p.image_url is None
    &&& text::opt_view(p.content_type) == Some("raw"@)
    &&& text::opt_view(p.captured_at) == Some(now.rfc3339_text())
    &&& p.extra is None
}

/// An envelope for raw text that was sent at a given time.
pub fn raw_payload_at(body: &[u8], now: Timestamp) -> (r: BrowserPayload)
    requires
        now.dated(),
    ensures
        is_raw_payload(r, body@, now),
{
    BrowserPayload {
        title: Some("clip".to_owned()),
        url: None,
        selection: Some(bytes::decode_lossy(body)),
        page_markdown: None,
        page_text: None,
        image_url: None,
        content_type: Some("raw".to_owned()),
        captured_at: Some(now.rfc3339()),
        extra: None,
    }
}

/// The envelope is the one that was sent, if one was, or else holds the text that was.
pub open spec fn is_accepted(r: BrowserPayload, parsed: Option<BrowserPayload>, body: Seq<u8>) -> bool {
    match parsed {
        Some(p) => r == p,
        None => exists|now: Timestamp| now.dated() && #[trigger] is_raw_payload(r, body, now),
    }
}

/// The envelope to store for a body that was sent: the body itself, if it is one, or
/// else one around its text.
pub fn accept_bytes(parsed: Option<BrowserPayload>, body: &[u8]) -> (r: BrowserPayload)
    ensures
        is_accepted(r, parsed, body@),
{
    match parsed {
        Some(p) => p,
        None => raw_payload_at(body, clock::utc_now()),
    }
}

/// The envelope holds what a form says.
pub open spec fn is_form_payload(
    p: BrowserPayload,
    m: Map<Seq<char>, Seq<char>>,
    now: Timestamp,
) -> bool {
    &&& text::opt_view(p.title) == form::filled_field(m, "title"@)
    &&& text::opt_view(p.url) == form::filled_field(m, "url"@)
    &&& text::opt_view(p.selection) == form::filled_field(m, "selection"@)
    &&& text::opt_view(p.page_markdown) == form::filled_field(m, "page_markdown"@)
    &&& text::opt_view(p.page_text) == form::filled_field(m, "page_text"@)
    &&& text::opt_view(p.image_url) == form::filled_field(m, "image_url"@)
    &&& text::opt_view(p.content_type) == Some(
        match form::field(m, "content_type"@) {
            Some(c) => c,
            None => "bookmarklet"@,
        },
    )
    &&& text::opt_view(p.captured_at) == Some(
        match form::field(m, "captured_at"@) {
            Some(c) => c,
            None => now.rfc3339_text(),
        },
    )
    &&& p.extra is None
}

/// The envelope to store for a form that was sent at a given time.
pub fn accept_form_at(body: &[u8], now: Timestamp) -> (r: BrowserPayload)
    requires
        form::pairs_decodable(form::form_pairs(body@)),
        now.dated(),
    ensures
        is_form_payload(r, form::pairs_map(form::form_pairs(body@)), now),
{
    let m = parse_form(body);
    let content_type = match m.get("content_type") {
        Some(c) => c,
        None => "bookmarklet".to_owned(),
    };
    let captured_at = match m.get("captured_at") {
        Some(c) => c,
        None => now.rfc3339(),
    };
    BrowserPayload {
        title: m.get_filled("title"),
        url: m.get_filled("url"),
        selection: m.get_filled("selection"),
        page_markdown: m.get_filled("page_markdown"),
        page_text: m.get_filled("page_text"),
        image_url: m.get_filled("image_url"),
        content_type: Some(content_type),
        captured_at: Some(captured_at),
        extra: None,
    }
}

/// The envelope to store for a form that was sent.
pub fn accept_form(body: &[u8]) -> (r: BrowserPayload)
    requires
        form::pairs_decodable(form::form_pairs(body@)),
    ensures
        exists|now: Timestamp|
            now.dated() && #[trigger] is_form_payload(
                r,
                form::pairs_map(form::form_pairs(body@)),
                now,
            ),
{
    accept_form_at(body, clock::utc_now())
}

/// What came of storing something, as JSON.
pub open spec fn outcome_json(ok: bool, path: Option<Seq<char>>, error: Option<Seq<char>>) -> Seq<
    char,
> {
    "{\"ok\":"@ + (if ok {
        "true"@
    } else {
        "false"@
    }) + ",\"path\":"@ + null_or(path) + ",\"error\":"@ + null_or(error) + "}"@
}

/// A text as JSON, or `null`.
pub open spec fn null_or(o: Option<Seq<char>>) -> Seq<char> {
    match o {
        Some(s) => json::json_text(s),
        None => "null"@,
    }
}

fn null_or_text(o: &Option<String>) -> (r: String)
    ensures
        r@ == null_or(text::opt_view(*o)),
{
    match o {
        Some(s) => json::quoted(s.as_str()),
        None => "null".to_owned(),
    }
}

/// What came of storing something, as JSON.
pub fn outcome_text(ok: bool, path: &Option<String>, error: &Option<String>) -> (r: String)
    ensures
        r@ == outcome_json(ok, text::opt_view(*path), text::opt_view(*error)),
{
    let mut s = glue(
        "{\"ok\":",
        if ok {
            "true"
        } else {
            "false"
        },
    );
    s.append(",\"path\":");
    s.append(null_or_text(path).as_str());
    s.append(",\"error\":");
    s.append(null_or_text(error).as_str());
    s.append("}");
    s
}

/// The answer tells what came of storing something.
pub open spec fn is_send_reply(r: Response, outcome: Result<String, String>) -> bool {
    match outcome {
        Ok(p) => r.is_json(200, outcome_json(true, Some(p@), None)),
        Err(e) => r.is_json(400, outcome_json(false, None, Some(e@))),
    }
}

/// The page tells what came of storing something.
pub open spec fn is_page_reply(r: Response, outcome: Result<String, String>) -> bool {
    match outcome {
        Ok(p) => r.is_html(200, pages::success_text(p@)),
        Err(e) => r.is_html(400, pages::failure_text(e@)),
    }
}

/// The answer to an envelope or a form that was sent, given where it was stored or why
/// it was not.
pub fn send_reply(outcome: &Result<String, String>) -> (r: Response)
    ensures
        is_send_reply(r, *outcome),
{
    match outcome {
        Ok(p) => {
            let path = Some(p.clone());
            json_response(200, outcome_text(true, &path, &None).as_str())
        },
        Err(e) => {
            let error = Some(e.clone());
            json_response(400, outcome_text(false, &None, &error).as_str())
        },
    }
}

/// The page that answers a form that was sent, given where it was stored or why it was
/// not.
pub fn page_reply(outcome: &Result<String, String>) -> (r: Response)
    ensures
        is_page_reply(r, *outcome),
{
    match outcome {
        Ok(p) => html_response(200, pages::success_page(p.as_str()).as_str()),
        Err(e) => html_response(400, pages::failure_page(e.as_str()).as_str()),
    }
}

/// A form is stored as it was sent: each member of the envelope is what was sent under its
/// own name, if something was and it is not empty, and is missing where nothing was sent
/// under that name. The type of the content and the time of the capture are what was sent,
/// even if it is empty, and else say that a bookmarklet sent it, and when it arrived.
pub proof fn sent_fields_are_stored(
    fields: Seq<(Seq<char>, Seq<char>)>,
    p: BrowserPayload,
    now: Timestamp,
)
    requires
        fields.len() > 0,
        forall|i: int, j: int|
            0 <= i < j < fields.len() ==> (#[trigger] fields[i]).0 != (#[trigger] fields[j]).0,
        is_form_payload(p, form::pairs_map(form::form_pairs(form::sent_form(fields))), now),
    ensures
        form::pairs_decodable(form::form_pairs(form::sent_form(fields))),
        forall|i: int|
            0 <= i < fields.len() ==> {
                let (name, value) = #[trigger] fields[i];
                let stored = if value.len() > 0 {
                    Some(value)
                } else {
                    None
                };
                &&& name == "title"@ ==> text::opt_view(p.title) == stored
                &&& name == "url"@ ==> text::opt_view(p.url) == stored
                &&& name == "selection"@ ==> text::opt_view(p.selection) == stored
                &&& name == "page_markdown"@ ==> text::opt_view(p.page_markdown) == stored
                &&& name == "page_text"@ ==> text::opt_view(p.page_text) == stored
                &&& name == "image_url"@ ==> text::opt_view(p.image_url) == stored
                &&& name == "content_type"@ ==> text::opt_view(p.content_type) == Some(value)
                &&& name == "captured_at"@ ==> text::opt_view(p.captured_at) == Some(value)
            },
        !names(fields, "title"@) ==> p.title is None,
        !names(fields, "url"@) ==> p.url is None,
        !names(fields, "selection"@) ==> p.selection is None,
        !names(fields, "page_markdown"@) ==> p.page_markdown is None,
        !names(fields, "page_text"@) ==> p.page_text is None,
        !names(fields, "image_url"@) ==> p.image_url is None,
        !names(fields, "content_type"@) ==> text::opt_view(p.content_type) == Some("bookmarklet"@),
        !names(fields, "captured_at"@) ==> text::opt_view(p.captured_at) == Some(
            now.rfc3339_text(),
        ),
        p.extra is None,
{
    form::sent_forms_are_read_back(fields);
    form::lemma_fields_apart(fields);
}

/// A field of this name was sent.
pub open spec fn names(fields: Seq<(Seq<char>, Seq<char>)>, name: Seq<char>) -> bool {
    exists|i: int| 0 <= i < fields.len() && (#[trigger] fields[i]).0 == name
}

/// The members of an envelope as a browser sends them in a form: those that are there.
pub open spec fn envelope_fields(p: BrowserPayload) -> Seq<(Seq<char>, Seq<char>)> {
    member("title"@, p.title) + member("url"@, p.url) + member("selection"@, p.selection) + member(
        "page_markdown"@,
        p.page_markdown,
    ) + member("page_text"@, p.page_text) + member("image_url"@, p.image_url)
}

/// A member of an envelope as a field, if it is there.
pub open spec fn member(name: Seq<char>, value: Option<String>) -> Seq<(Seq<char>, Seq<char>)> {
    match value {
        Some(v) => seq![(name, v@)],
        None => Seq::empty(),
    }
}

/// One more member as a field says what it holds, under its name alone.
proof fn lemma_member(fields: Seq<(Seq<char>, Seq<char>)>, name: Seq<char>, value: Option<String>)
    ensures
        forall|k: Seq<char>| #[trigger]
            form::field(form::fields_map(fields + member(name, value)), k) == if k == name
                && value is Some {
                Some(value.unwrap()@)
            } else {
                form::field(form::fields_map(fields), k)
            },
{
    let all = fields + member(name, value);
    if let Some(v) = value {
        assert(all.drop_last() == fields);
        assert(all.last() == (name, v@));
    } else {
        assert(all == fields);
    }
}

/// The members have different names.
proof fn lemma_names_apart()
    ensures
        "title"@ != "url"@,
        "title"@ != "selection"@,
        "title"@ != "page_markdown"@,
        "title"@ != "page_text"@,
        "title"@ != "image_url"@,
        "url"@ != "selection"@,
        "url"@ != "page_markdown"@,
        "url"@ != "page_text"@,
        "url"@ != "image_url"@,
        "selection"@ != "page_markdown"@,
        "selection"@ != "page_text"@,
        "selection"@ != "image_url"@,
        "page_markdown"@ != "page_text"@,
        "page_markdown"@ != "image_url"@,
        "page_text"@ != "image_url"@,
{
    reveal_strlit("title");
    reveal_strlit("url");
    reveal_strlit("selection");
    reveal_strlit("page_markdown");
    reveal_strlit("page_text");
    reveal_strlit("image_url");
    assert("title"@.len() == 5);
    assert("url"@.len() == 3);
    assert("selection"@.len() == 9);
    assert("page_markdown"@.len() == 13);
    assert("page_text"@.len() == 9);
    assert("image_url"@.len() == 9);
    assert("selection"@[0] == 's' && "page_text"@[0] == 'p' && "image_url"@[0] == 'i');
}

/// A member that is there is not empty.
pub open spec fn filled(value: Option<String>) -> bool {
    value matches Some(v) ==> v@.len() > 0
}

/// An envelope that is sent as a form comes back as it was: sending its members and
/// accepting the form gives the same title, address, selection, page and image. Members
/// that are there are not empty.
pub proof fn envelopes_come_back(p: BrowserPayload, r: BrowserPayload, now: Timestamp)
    requires
        envelope_fields(p).len() > 0,
        filled(p.title) && filled(p.url) && filled(p.selection),
        filled(p.page_markdown) && filled(p.page_text) && filled(p.image_url),
        is_form_payload(
            r,
            form::pairs_map(form::form_pairs(form::sent_form(envelope_fields(p)))),
            now,
        ),
    ensures
        text::opt_view(r.title) == text::opt_view(p.title),
        text::opt_view(r.url) == text::opt_view(p.url),
        text::opt_view(r.selection) == text::opt_view(p.selection),
        text::opt_view(r.page_markdown) == text::opt_view(p.page_markdown),
        text::opt_view(r.page_text) == text::opt_view(p.page_text),
        text::opt_view(r.image_url) == text::opt_view(p.image_url),
{
    form::sent_forms_are_read_back(envelope_fields(p));
    let (a, b, c) = (member("title"@, p.title), member("url"@, p.url), member("selection"@, p.selection));
    let d = member("page_markdown"@, p.page_markdown);
    let e = member("page_text"@, p.page_text);
    let none = Seq::<(Seq<char>, Seq<char>)>::empty();
    assert(none + a == a);
    lemma_member(none, "title"@, p.title);
    lemma_member(a, "url"@, p.url);
    lemma_member(a + b, "selection"@, p.selection);
    lemma_member(a + b + c, "page_markdown"@, p.page_markdown);
    lemma_member(a + b + c + d, "page_text"@, p.page_text);
    lemma_member(a + b + c + d + e, "image_url"@, p.image_url);
    lemma_names_apart();
}

/// Text that is sent as it is becomes the selection of an envelope, whole, and so stands in
/// what is made of the envelope, unless it is blank.
pub proof fn raw_text_is_kept(s: Seq<char>, p: BrowserPayload, now: Timestamp)
    requires
        is_raw_payload(p, encode_utf8(s), now),
    ensures
        text::opt_view(p.selection) == Some(s),
        text::blank(s) || search::occurs(extract::payload_extract(p).text, s),
        text::opt_view(p.title) == Some("clip"@),
        text::opt_view(p.content_type) == Some("raw"@),
        text::opt_view(p.captured_at) == Some(now.rfc3339_text()),
        p.url is None && p.image_url is None && p.page_markdown is None && p.page_text is None,
{
    bytes::lemma_text_of_encoded(s);
    extract::what_was_captured_is_kept(p);
}

/// What is posted to `/send`, `/drop` or `/send-form` is stored, and nothing else is: a form
/// is read as a form. Whatever is got is answered at once, and what nobody knows is answered
/// as not found.
pub proof fn only_posts_are_stored(r: Routed, state: DropState, q: Request)
    requires
        rightly_routed(r, state, q),
    ensures
        r is Store || r is StoreForm || r is StorePage ==> q.method@ == "POST"@ && (q.path@
            == "/send"@ || q.path@ == "/drop"@ || q.path@ == "/send-form"@),
        q.method@ == "POST"@ && q.path@ == "/send-form"@ ==> r is StorePage,
        q.method@ == "POST"@ && (q.path@ == "/send"@ || q.path@ == "/drop"@) ==> (r is StoreForm
            <==> search::occurs(q.content_type@, "application/x-www-form-urlencoded"@)) && (
        r is StoreForm || r is Store),
        q.method@ == "GET"@ ==> r is Reply,
        q.method@ == "OPTIONS"@ <==> r is Preflight,
        q.method@ != "GET"@ && q.method@ != "POST"@ && q.method@ != "OPTIONS"@ ==> (
        r matches Routed::Reply(a) && a.code == 404),
        q.method@ == "GET"@ && (q.path@ == "/send"@ || q.path@ == "/"@) ==> (
        r matches Routed::Reply(a) && a.code == 200 && a.body@ == encode_utf8(
            pages::install_text(state.listen_addr@),
        )),
        q.method@ == "GET"@ && q.path@ == "/health"@ ==> (r matches Routed::Reply(a) && a.code
            == 200 && a.body@ == encode_utf8(health_json(state.vault.root@))),
{
    assert("GET"@ != "POST"@ && "GET"@ != "OPTIONS"@ && "POST"@ != "OPTIONS"@) by {
        reveal_strlit("GET");
        reveal_strlit("POST");
        reveal_strlit("OPTIONS");
        assert("GET"@.len() == 3 && "POST"@.len() == 4 && "OPTIONS"@.len() == 7);
    }
    assert("/send"@ != "/send-form"@ && "/drop"@ != "/send-form"@ && "/health"@ != "/send"@ && "/health"@
        != "/"@) by {
        reveal_strlit("/send");
        reveal_strlit("/drop");
        reveal_strlit("/send-form");
        reveal_strlit("/health");
        reveal_strlit("/");
        assert("/send"@.len() == 5 && "/drop"@.len() == 5 && "/send-form"@.len() == 10);
        assert("/health"@.len() == 7 && "/"@.len() == 1);
    }
}

/// The reply tells where something was stored, or why it was not; the state of the server
/// tells where things are dropped.
pub proof fn outcomes_are_told(path: Seq<char>, error: Seq<char>, root: Seq<char>)
    ensures
        search::occurs(outcome_json(true, Some(path), None), "\"path\":"@ + json::json_text(path)),
        search::occurs(outcome_json(true, Some(path), None), "{\"ok\":"@ + "true"@),
        search::occurs(
            outcome_json(false, None, Some(error)),
            "\"error\":"@ + json::json_text(error),
        ),
        search::occurs(outcome_json(false, None, Some(error)), "{\"ok\":"@ + "false"@),
        search::occurs(
            health_json(root),
            json::json_text(paths::under(paths::under(root, "raw"@), "incoming"@)),
        ),
{
    lemma_outcome(true, Some(path), None);
    lemma_outcome(false, None, Some(error));
    let j = json::json_text(vault::two_below(root, "raw"@, "incoming"@));
    let v = json::json_text(VERSION@);
    let s = "{\"incoming\":"@ + j;
    let ok = ",\"ok\":true,\"service\":\"research-ingest\",\"version\":"@;
    search::lemma_occurs_itself(j);
    search::lemma_occurs_add("{\"incoming\":"@, j);
    search::lemma_occurs_add(s, ok);
    search::lemma_occurs_add(s + ok, v);
    search::lemma_occurs_add(s + ok + v, "}"@);
}

proof fn lemma_outcome(ok: bool, path: Option<Seq<char>>, error: Option<Seq<char>>)
    ensures
        ({
            let o = outcome_json(ok, path, error);
            &&& search::occurs(
                o,
                "{\"ok\":"@ + if ok {
                    "true"@
                } else {
                    "false"@
                },
            )
            &&& search::occurs(o, "\"path\":"@ + null_or(path))
            &&& search::occurs(o, "\"error\":"@ + null_or(error))
        }),
{
    let b = if ok {
        "true"@
    } else {
        "false"@
    };
    assert(",\"path\":"@ == ","@ + "\"path\":"@) by {
        reveal_strlit(",\"path\":");
        reveal_strlit(",");
        reveal_strlit("\"path\":");
    }
    assert(",\"error\":"@ == ","@ + "\"error\":"@) by {
        reveal_strlit(",\"error\":");
        reveal_strlit(",");
        reveal_strlit("\"error\":");
    }
    let s1 = "{\"ok\":"@ + b;
    let s2 = s1 + ",\"path\":"@;
    let s3 = s2 + null_or(path);
    let s4 = s3 + ",\"error\":"@;
    let s5 = s4 + null_or(error);
    search::lemma_occurs_itself(s1);
    search::lemma_occurs_add(s1, ",\"path\":"@);
    search::lemma_occurs_add(s2, null_or(path));
    search::lemma_occurs_add(s3, ",\"error\":"@);
    search::lemma_occurs_add(s4, null_or(error));
    search::lemma_occurs_add(s5, "}"@);
    search::lemma_occurs_end(s1 + ","@, "\"path\":"@, null_or(path));
    assert(s3 == (s1 + ","@) + "\"path\":"@ + null_or(path));
    search::lemma_occurs_end(s3 + ","@, "\"error\":"@, null_or(error));
    assert(s5 == (s3 + ","@) + "\"error\":"@ + null_or(error));
}

/// The server is opened exactly where the address is one of this machine, for the vault and
/// on the address that are set; else it is refused with the address.
pub proof fn only_this_machine_is_served(r: Result<DropState, String>, cfg: Config, loopback: bool)
    requires
        rightly_opened(r, cfg, loopback),
    ensures
        r is Ok <==> loopback,
        r matches Ok(s) ==> s.vault.root@ == cfg.vault_path@ && s.listen_addr@ == cfg.listen_addr@,
        r matches Err(e) ==> search::occurs(e@, cfg.listen_addr@),
{
    search::lemma_has_middle(
        "listen_addr must be loopback for safety (got "@,
        cfg.listen_addr@,
        ")"@,
    );
}

/// An envelope that is sent is stored as it came; any other text is stored whole, as the
/// selection of an envelope.
pub proof fn what_is_sent_is_stored(r: BrowserPayload, parsed: Option<BrowserPayload>, s: Seq<char>)
    requires
        is_accepted(r, parsed, encode_utf8(s)),
    ensures
        parsed matches Some(p) ==> r == p,
        parsed is None ==> text::opt_view(r.selection) == Some(s) && r.url is None && (text::blank(s)
            || search::occurs(extract::payload_extract(r).text, s)),
{
    if parsed is None {
        let now = choose|now: Timestamp|
            now.dated() && #[trigger] is_raw_payload(r, encode_utf8(s), now);
        raw_text_is_kept(s, r, now);
    }
}

/// Storing is answered with success exactly where it succeeded, and the answer holds the
/// path or the reason.
pub proof fn replies_match_the_outcome(a: Response, b: Response, outcome: Result<String, String>)
    requires
        is_send_reply(a, outcome),
        is_page_reply(b, outcome),
    ensures
        a.code == 200 <==> outcome is Ok,
        b.code == 200 <==> outcome is Ok,
        a.code == 400 <==> outcome is Err,
        b.code == 400 <==> outcome is Err,
        outcome matches Ok(p) ==> exists|t: Seq<char>|
            a.body@ == #[trigger] encode_utf8(t) && search::occurs(t, json::json_text(p@)),
        outcome matches Err(e) ==> exists|t: Seq<char>|
            a.body@ == #[trigger] encode_utf8(t) && search::occurs(t, json::json_text(e@)),
        outcome matches Ok(p) ==> exists|t: Seq<char>|
            b.body@ == #[trigger] encode_utf8(t) && search::occurs(t, pages::html_text(p@)),
        outcome matches Err(e) ==> exists|t: Seq<char>|
            b.body@ == #[trigger] encode_utf8(t) && search::occurs(t, pages::html_text(e@)),
{
    match outcome {
        Ok(p) => {
            let t = outcome_json(true, Some(p@), None);
            lemma_outcome(true, Some(p@), None);
            search::lemma_occurs_itself(json::json_text(p@));
            search::lemma_occurs_add("\"path\":"@, json::json_text(p@));
            search::lemma_occurs_trans(t, "\"path\":"@ + json::json_text(p@), json::json_text(p@));
            assert(a.body@ == encode_utf8(t));
            pages::replies_show_the_outcome(p@);
            assert(b.body@ == encode_utf8(pages::success_text(p@)));
        },
        Err(e) => {
            let t = outcome_json(false, None, Some(e@));
            lemma_outcome(false, None, Some(e@));
            search::lemma_occurs_itself(json::json_text(e@));
            search::lemma_occurs_add("\"error\":"@, json::json_text(e@));
            search::lemma_occurs_trans(t, "\"error\":"@ + json::json_text(e@), json::json_text(e@));
            assert(a.body@ == encode_utf8(t));
            pages::replies_show_the_outcome(e@);
            assert(b.body@ == encode_utf8(pages::failure_text(e@)));
        },
    }
}

} // verus!
