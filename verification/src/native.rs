//! Sending from the browser and the command line: the native messaging protocol, and
//! what is installed for it.

use vstd::prelude::*;
use vstd::string::*;
use vstd::utf8::*;

use crate::search;
use crate::extract;
use crate::bytes;
use crate::clock;
use crate::clock::Timestamp;
use crate::config;
use crate::drop_server;
use crate::drop_server::outcome_text;
use crate::extract::{glue, BrowserPayload};
use crate::json;
use crate::json::{Json, JsonView};
use crate::paths;
use crate::text;

verus! {

/// The name under which browsers know the host.
pub const NATIVE_HOST_NAME: &'static str = "dev.theesfeld.research_send";

/// The longest message that is taken.
pub const MESSAGE_LIMIT: u32 = 67_108_864;

/// The number that four bytes stand for, lowest first.
pub open spec fn le_value(b: Seq<u8>) -> int {
    b[0] as int + 256 * b[1] as int + 65_536 * b[2] as int + 16_777_216 * b[3] as int
}

/// The four bytes that stand for a number, lowest first.
pub open spec fn le_bytes(n: int) -> Seq<u8> {
    seq![
        (n % 256) as u8,
        (n / 256 % 256) as u8,
        (n / 65_536 % 256) as u8,
        (n / 16_777_216 % 256) as u8,
    ]
}

/// The length that a message announces, if it may be that long.
pub open spec fn announced_length(head: Seq<u8>) -> Option<int> {
    let n = le_value(head);
    if n == 0 || n > MESSAGE_LIMIT {
        None
    } else {
        Some(n)
    }
}

/// The length that a message announces in its first four bytes, or why it is refused.
pub fn read_length(head: &[u8; 4]) -> (r: Result<u32, String>)
    ensures
        match r {
            Ok(n) => announced_length(head@) == Some(n as int),
            Err(e) => announced_length(head@) is None && e@ == "invalid native message length "@
                + text::decimal_of(le_value(head@) as nat),
        },
{
    let n: u32 = head[0] as u32 + 256 * (head[1] as u32) + 65_536 * (head[2] as u32) + 16_777_216 * (
    head[3] as u32);
    if n == 0 || n > MESSAGE_LIMIT {
        return Err(
            glue("invalid native message length ", text::decimal(n as u64).as_str()),
        );
    }
    Ok(n)
}

/// A message with its length in front, of which four bytes are kept.
pub open spec fn framed(b: Seq<u8>) -> Seq<u8> {
    le_bytes(b.len() as int % 0x1_0000_0000) + b
}

/// A message with its length in front.
pub fn frame(message: &Vec<u8>) -> (r: Vec<u8>)
    ensures
        r@ == framed(message@),
{
    let n: u64 = message.len() as u64 % 0x1_0000_0000u64;
    let mut out: Vec<u8> = Vec::new();
    out.push((n % 256) as u8);
    out.push((n / 256 % 256) as u8);
    out.push((n / 65_536 % 256) as u8);
    out.push((n / 16_777_216 % 256) as u8);
    assert(out@ == le_bytes(n as int));
    let ghost head = out@;
    let mut i: usize = 0;
    assert(out@ == head + message@.take(0));
    while i < message.len()
        invariant
            i <= message@.len(),
            out@ == head + message@.take(i as int),
        decreases message@.len() - i,
    {
        out.push(message[i]);
        assert(message@.take(i + 1) == message@.take(i as int).push(message@[i as int]));
        i = i + 1;
    }
    assert(message@.take(i as int) == message@);
    out
}

/// A message is read as it was written: its length is the one announced, and its bytes
/// follow. It must not be empty, nor longer than what is taken.
pub proof fn framed_messages_are_read_back(b: Seq<u8>)
    requires
        0 < b.len() <= MESSAGE_LIMIT,
    ensures
        announced_length(framed(b).take(4)) == Some(b.len() as int),
        framed(b).skip(4) == b,
{
    let n = b.len() as int;
    let head = framed(b).take(4);
    assert(framed(b).skip(4) == b);
    assert(head == le_bytes(n));
    assert(n == n % 256 + 256 * (n / 256 % 256) + 65_536 * (n / 65_536 % 256) + 16_777_216 * (n
        / 16_777_216 % 256)) by (nonlinear_arith)
        requires
            0 < n <= 67_108_864,
    ;
}

/// What a message from the browser asks for.
#[derive(Debug, Clone, Copy, PartialEq, Eq, Structural)]
pub enum NativeRequest {
    Ping,
    Send,
}

/// What a message asks for, after its type.
pub fn request_kind(kind: Option<&str>) -> (r: NativeRequest)
    ensures
        r == if text::opt_str(kind) == Some("ping"@) {
            NativeRequest::Ping
        } else {
            NativeRequest::Send
        },
{
    match kind {
        Some(k) => {
            if text::same(k, "ping") {
                NativeRequest::Ping
            } else {
                NativeRequest::Send
            }
        },
        None => NativeRequest::Send,
    }
}

/// The answer to a message, ready to be written: where something was stored, or why it
/// was not.
pub fn native_reply(ok: bool, path: &Option<String>, error: &Option<String>) -> (r: Vec<u8>)
    ensures
        r@ == framed(
            encode_utf8(
                drop_server::outcome_json(ok, text::opt_view(*path), text::opt_view(*error)),
            ),
        ),
{
    frame(&bytes::bytes_of(outcome_text(ok, path, error).as_str()))
}

/// The answer to a message that is no request.
pub fn bad_request_reply(error: &str) -> (r: Vec<u8>)
    ensures
        r@ == framed(
            encode_utf8(drop_server::outcome_json(false, None, Some("bad request: "@ + error@))),
        ),
{
    let e = Some(glue("bad request: ", error));
    native_reply(false, &None, &e)
}

/// The envelope holds text that was given on the command line.
pub open spec fn is_text_payload(
    p: BrowserPayload,
    body: Seq<char>,
    url: Option<Seq<char>>,
    title: Option<Seq<char>>,
    now: Timestamp,
) -> bool {
    &&& text::opt_view(p.title) == title
    &&& text::opt_view(p.url) == url
    &&& text::opt_view(p.selection) == Some(body)
    &&& p.page_markdown is None
    &&& p.page_text is None
    &&& p.image_url is None
    &&& text::opt_view(p.content_type) == Some("selection"@)
    &&& text::opt_view(p.captured_at) == Some(now.rfc3339_text())
    &&& p.extra is None
}

/// An envelope for text that was given on the command line at a given time.
pub fn text_payload_at(
    body: String,
    url: Option<String>,
    title: Option<String>,
    now: Timestamp,
) -> (r: BrowserPayload)
    requires
        now.dated(),
    ensures
        is_text_payload(r, body@, text::opt_view(url), text::opt_view(title), now),
{
    BrowserPayload {
        title,
        url,
        selection: Some(body),
        page_markdown: None,
        page_text: None,
        image_url: None,
        content_type: Some("selection".to_owned()),
        captured_at: Some(now.rfc3339()),
        extra: None,
    }
}

/// An envelope for text that was given on the command line.
pub fn text_payload(body: String, url: Option<String>, title: Option<String>) -> (r: BrowserPayload)
    ensures
        exists|now: Timestamp|
            now.dated() && #[trigger] is_text_payload(
                r,
                body@,
                text::opt_view(url),
                text::opt_view(title),
                now,
            ),
{
    text_payload_at(body, url, title, clock::utc_now())
}

/// The directories in which browsers look for hosts.
pub open spec fn host_dirs(home: Seq<char>) -> Seq<Seq<char>> {
    seq![
        paths::under(home, ".config/BraveSoftware/Brave-Browser/NativeMessagingHosts"@),
        paths::under(home, ".config/chromium/NativeMessagingHosts"@),
        paths::under(home, ".config/google-chrome/NativeMessagingHosts"@),
    ]
}

/// What tells browsers of the host.
pub open spec fn manifest_view(path: Seq<char>, extension_id: Seq<char>) -> JsonView {
    JsonView::Object(
        seq![
            ("name"@, JsonView::Text(NATIVE_HOST_NAME@)),
            (
                "description"@,
                JsonView::Text("research-send native host for Grok research ingest"@),
            ),
            ("path"@, JsonView::Text(path)),
            ("type"@, JsonView::Text("stdio"@)),
            (
                "allowed_origins"@,
                JsonView::List(
                    seq![JsonView::Text("chrome-extension://"@ + extension_id + "/"@)],
                ),
            ),
        ],
    )
}

/// What tells browsers of the host.
pub fn manifest(path: &str, extension_id: &str) -> (r: Json)
    ensures
        r@ == manifest_view(path@, extension_id@),
{
    let mut origin = glue("chrome-extension://", extension_id);
    origin.append("/");
    let mut origins: Vec<Json> = Vec::new();
    origins.push(json::text(origin.as_str()));
    assert(json::items_view(origins@) == seq![JsonView::Text(origin@)]);
    let ghost ov = json::items_view(origins@);
    let mut v: Vec<(String, Json)> = Vec::new();
    json::put(&mut v, "name", json::text(NATIVE_HOST_NAME));
    json::put(
        &mut v,
        "description",
        json::text("research-send native host for Grok research ingest"),
    );
    json::put(&mut v, "path", json::text(path));
    json::put(&mut v, "type", json::text("stdio"));
    json::put(&mut v, "allowed_origins", json::list(origins));
    assert(json::fields_view(v@) == seq![
        ("name"@, JsonView::Text(NATIVE_HOST_NAME@)),
        ("description"@, JsonView::Text("research-send native host for Grok research ingest"@)),
        ("path"@, JsonView::Text(path@)),
        ("type"@, JsonView::Text("stdio"@)),
        ("allowed_origins"@, JsonView::List(ov)),
    ]);
    json::object(v)
}

/// What is installed so that browsers can run the host.
#[derive(Debug)]
pub struct HostInstall {
    /// The directories to create, and the manifest in each.
    pub dirs: Vec<String>,
    pub manifest_paths: Vec<String>,
    /// What each manifest says at first, with the program itself.
    pub program_manifest: Json,
    pub shim_dir: String,
    pub shim_path: String,
    /// The script that runs the program as a host.
    pub shim_body: String,
    /// What each manifest says in the end, with the script.
    pub manifest: Json,
}

/// The file of a manifest in a directory.
pub open spec fn manifest_file(dir: Seq<char>) -> Seq<char> {
    paths::under(dir, NATIVE_HOST_NAME@ + ".json"@)
}

/// The script that runs the program as a host.
pub open spec fn shim_text(exe: Seq<char>) -> Seq<char> {
    "#!/bin/sh\nexec \""@ + exe + "\" host\n"@
}

impl HostInstall {
    /// The plan installs the program under the home directory and the config directory.
    pub open spec fn is_for(
        self,
        exe: Seq<char>,
        extension_id: Seq<char>,
        home: Seq<char>,
        config_dir: Seq<char>,
    ) -> bool {
        let shim = paths::under(config_dir, "native-host.sh"@);
        &&& text::views(self.dirs@) == host_dirs(home)
        &&& text::views(self.manifest_paths@) == host_dirs(home).map_values(
            |d: Seq<char>| manifest_file(d),
        )
        &&& self.program_manifest@ == manifest_view(exe, extension_id)
        &&& self.shim_dir@ == config_dir
        &&& self.shim_path@ == shim
        &&& self.shim_body@ == shim_text(exe)
        &&& self.manifest@ == manifest_view(shim, extension_id)
    }
}

/// What is installed for a program in a home and a config directory.
pub fn install_plan(exe: &str, extension_id: &str, home: &str, config_dir: &str) -> (r: HostInstall)
    ensures
        r.is_for(exe@, extension_id@, home@, config_dir@),
{
    let mut dirs: Vec<String> = Vec::new();
    text::push_text(
        &mut dirs,
        paths::join(home, ".config/BraveSoftware/Brave-Browser/NativeMessagingHosts"),
    );
    text::push_text(&mut dirs, paths::join(home, ".config/chromium/NativeMessagingHosts"));
    text::push_text(&mut dirs, paths::join(home, ".config/google-chrome/NativeMessagingHosts"));
    assert(text::views(dirs@) == host_dirs(home@));
    let name = glue(NATIVE_HOST_NAME, ".json");
    let ghost all = host_dirs(home@).map_values(|d: Seq<char>| manifest_file(d));
    let mut manifest_paths: Vec<String> = Vec::new();
    let mut i: usize = 0;
    while i < dirs.len()
        invariant
            i <= dirs@.len(),
            text::views(dirs@) == host_dirs(home@),
            name@ == NATIVE_HOST_NAME@ + ".json"@,
            all == host_dirs(home@).map_values(|d: Seq<char>| manifest_file(d)),
            text::views(manifest_paths@) == all.take(i as int),
        decreases dirs@.len() - i,
    {
        assert(text::views(dirs@)[i as int] == dirs@[i as int]@);
        text::push_text(&mut manifest_paths, paths::join(dirs[i].as_str(), name.as_str()));
        assert(all.take(i + 1) == all.take(i as int).push(all[i as int]));
        i = i + 1;
    }
    assert(text::views(dirs@).len() == dirs@.len());
    assert(all.take(i as int) == all);
    let shim_path = paths::join(config_dir, "native-host.sh");
    let mut shim_body = glue("#!/bin/sh\nexec \"", exe);
    shim_body.append("\" host\n");
    HostInstall {
        dirs,
        manifest_paths,
        program_manifest: manifest(exe, extension_id),
        shim_dir: config_dir.to_owned(),
        manifest: manifest(shim_path.as_str(), extension_id),
        shim_path,
        shim_body,
    }
}

/// What is installed for a program of this user, or that there is no home directory.
pub fn install_native_host(exe: &str, extension_id: &str) -> (r: Result<HostInstall, String>)
    ensures
        match r {
            Ok(p) => exists|home: Seq<char>, dir: Seq<char>|
                config::names_project(dir) && #[trigger] p.is_for(exe@, extension_id@, home, dir),
            Err(e) => e@ == "home directory"@,
        },
{
    let dir = config::config_dir();
    match config::home_dir() {
        Some(h) => Ok(install_plan(exe, extension_id, h.as_str(), dir.as_str())),
        None => Err("home directory".to_owned()),
    }
}

/// Text that is sent from the command line is kept whole: it is the selection of its
/// envelope, with the address and the title that were given, and stands in what is made of
/// the envelope, unless it is blank.
pub proof fn sent_text_is_kept(
    p: BrowserPayload,
    body: Seq<char>,
    url: Option<Seq<char>>,
    title: Option<Seq<char>>,
    now: Timestamp,
)
    requires
        is_text_payload(p, body, url, title, now),
    ensures
        text::opt_view(p.selection) == Some(body),
        text::blank(body) || search::occurs(extract::payload_extract(p).text, body),
        extract::payload_extract(p).source_url == url,
        extract::payload_extract(p).title == title,
        text::opt_view(p.content_type) == Some("selection"@),
        text::opt_view(p.captured_at) == Some(now.rfc3339_text()),
        p.image_url is None && p.page_markdown is None && p.page_text is None,
{
    extract::what_was_captured_is_kept(p);
}

/// The manifest names the host, the program to run and the extension that may run it, and is
/// installed for each browser; it leads to a script that runs the program.
pub proof fn manifests_lead_to_the_program(
    p: HostInstall,
    exe: Seq<char>,
    extension_id: Seq<char>,
    home: Seq<char>,
    config_dir: Seq<char>,
)
    requires
        p.is_for(exe, extension_id, home, config_dir),
    ensures
        p.manifest@->Object_0.contains(("path"@, JsonView::Text(p.shim_path@))),
        p.manifest@->Object_0.contains(("name"@, JsonView::Text(NATIVE_HOST_NAME@))),
        exists|i: int|
            0 <= i < p.manifest@->Object_0.len() && (#[trigger] p.manifest@->Object_0[i]).0
                == "allowed_origins"@ && p.manifest@->Object_0[i].1 == JsonView::List(
                seq![JsonView::Text("chrome-extension://"@ + extension_id + "/"@)],
            ),
        search::occurs(p.shim_body@, exe),
        p.manifest_paths@.len() == p.dirs@.len(),
        forall|i: int|
            0 <= i < p.dirs@.len() ==> (#[trigger] p.manifest_paths@[i])@ == paths::under(
                p.dirs@[i]@,
                NATIVE_HOST_NAME@ + ".json"@,
            ),
{
    let f = p.manifest@->Object_0;
    assert(f[0] == ("name"@, JsonView::Text(NATIVE_HOST_NAME@)));
    assert(f[2] == ("path"@, JsonView::Text(p.shim_path@)));
    assert(f[4].0 == "allowed_origins"@);
    search::lemma_has_middle("#!/bin/sh\nexec \""@, exe, "\" host\n"@);
    let m = text::views(p.manifest_paths@);
    let d = text::views(p.dirs@);
    assert(m.len() == d.len());
    assert forall|i: int| 0 <= i < p.dirs@.len() implies (#[trigger] p.manifest_paths@[i])@
        == paths::under(p.dirs@[i]@, NATIVE_HOST_NAME@ + ".json"@) by {
        assert(m[i] == p.manifest_paths@[i]@);
        assert(d[i] == p.dirs@[i]@);
        assert(m[i] == manifest_file(d[i]));
    }
}

} // verus!
