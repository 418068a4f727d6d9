//! The always-on user service: its unit file, and how it is enabled.

use vstd::prelude::*;
use vstd::string::*;

use crate::search;
use crate::bytes;
use crate::command::{CommandPlan, ProgramOutput};
use crate::config;
use crate::config::Config;
use crate::extract::glue;
use crate::paths;
use crate::split;
use crate::text;
use crate::vault;
use crate::vault::VaultPaths;

verus! {

/// The name of the service.
pub const UNIT_NAME: &'static str = "research-ingest.service";

/// Where programs are looked for: those of cargo, of the Nix profile and of the system.
pub open spec fn search_path(home: Seq<char>, user: Seq<char>) -> Seq<char> {
    home + "/.cargo/bin:"@ + home + "/.nix-profile/bin:"@ + home
        + "/.local/bin:/etc/profiles/per-user/"@ + user
        + "/bin:/run/current-system/sw/bin:/usr/local/bin:/usr/bin:/bin"@
}

/// The home directory in a unit file, where `%h` stands for one that is not known.
pub open spec fn unit_home(home: Option<Seq<char>>) -> Seq<char> {
    match home {
        Some(h) => h,
        None => "%h"@,
    }
}

/// The unit file of the service.
pub open spec fn unit_text(home: Option<Seq<char>>, user: Seq<char>) -> Seq<char> {
    let h = unit_home(home);
    "[Unit]\nDescription=research-ingest always-on vault watcher + Brave drop\nAfter=default.target network-online.target\nWants=network-online.target\n\n[Service]\nType=simple\nExecStart="@
        + h
        + "/.cargo/bin/research-ingest watch\nRestart=always\nRestartSec=3\n# Full tool PATH for OCR / whisper / grok session\nEnvironment=PATH="@
        + search_path(h, user) + "\nEnvironment=HOME="@ + h
        + "\nEnvironment=RUST_LOG=info\n# SuperGrok session only — never bill console API tokens from the daemon\nEnvironment=XAI_API_KEY=\n# Ensure no empty key confuses some CLIs\nPassEnvironment=HOME\n\n[Install]\nWantedBy=default.target\n"@
}

/// The unit file of the service, in a given home directory.
pub fn render_unit_in(home: Option<&str>, user: &str) -> (r: String)
    ensures
        r@ == unit_text(text::opt_str(home), user@),
{
    let h = match home {
        Some(h) => h,
        None => "%h",
    };
    let mut path = glue(h, "/.cargo/bin:");
    path.append(h);
    path.append("/.nix-profile/bin:");
    path.append(h);
    path.append("/.local/bin:/etc/profiles/per-user/");
    path.append(user);
    path.append("/bin:/run/current-system/sw/bin:/usr/local/bin:/usr/bin:/bin");
    let mut s = glue(
        "[Unit]\nDescription=research-ingest always-on vault watcher + Brave drop\nAfter=default.target network-online.target\nWants=network-online.target\n\n[Service]\nType=simple\nExecStart=",
        h,
    );
    s.append(
        "/.cargo/bin/research-ingest watch\nRestart=always\nRestartSec=3\n# Full tool PATH for OCR / whisper / grok session\nEnvironment=PATH=",
    );
    s.append(path.as_str());
    s.append("\nEnvironment=HOME=");
    s.append(h);
    s.append(
        "\nEnvironment=RUST_LOG=info\n# SuperGrok session only — never bill console API tokens from the daemon\nEnvironment=XAI_API_KEY=\n# Ensure no empty key confuses some CLIs\nPassEnvironment=HOME\n\n[Install]\nWantedBy=default.target\n",
    );
    s
}

/// The unit file of the service.
pub fn render_unit(user: &str) -> (r: String)
    ensures
        exists|home: Option<Seq<char>>| r@ == #[trigger] unit_text(home, user@),
{
    let home = config::home_dir();
    render_unit_in(config::as_str_opt(&home), user)
}

/// Where user services are kept, in a given home directory.
pub fn systemd_dir_in(home: Option<&str>) -> (r: Result<String, String>)
    ensures
        match r {
            Ok(d) => home is Some && d@ == paths::under(home.unwrap()@, ".config/systemd/user"@),
            Err(e) => home is None && e@ == "home directory"@,
        },
{
    match home {
        Some(h) => Ok(paths::join(h, ".config/systemd/user")),
        None => Err("home directory".to_owned()),
    }
}

/// Where user services are kept.
pub fn user_systemd_dir() -> (r: Result<String, String>)
    ensures
        match r {
            Ok(d) => exists|home: Seq<char>|
                d@ == #[trigger] paths::under(home, ".config/systemd/user"@),
            Err(e) => e@ == "home directory"@,
        },
{
    let home = config::home_dir();
    systemd_dir_in(config::as_str_opt(&home))
}

/// The name of the user, after what the environment says.
pub fn whoami(user: Option<String>, logname: Option<String>) -> (r: String)
    ensures
        r@ == (match text::opt_view(user) {
            Some(u) => u,
            None => match text::opt_view(logname) {
                Some(l) => l,
                None => "glenda"@,
            },
        }),
{
    match user {
        Some(u) => u,
        None => match logname {
            Some(l) => l,
            None => "glenda".to_owned(),
        },
    }
}

/// A command to the service manager of the user.
pub fn systemctl(args: &Vec<String>) -> (r: CommandPlan)
    ensures
        r.is("systemctl"@, seq!["--user"@] + text::views(args@)),
{
    let mut all: Vec<String> = Vec::new();
    text::push_text(&mut all, "--user".to_owned());
    let ghost first = all@;
    let mut more = text::copy_list(args);
    let ghost added = more@;
    all.append(&mut more);
    assert(text::views(all@) == text::views(first) + text::views(added));
    assert(text::views(first) == seq!["--user"@]);
    CommandPlan { program: "systemctl".to_owned(), args: all }
}

/// Judges how a command to the service manager ended.
pub fn systemctl_result(args: &Vec<String>, success: bool) -> (r: Result<(), String>)
    ensures
        match r {
            Ok(_) => success,
            Err(e) => !success && e@ == "systemctl "@ + split::joined(text::views(args@), " "@)
                + " failed"@,
        },
{
    if success {
        return Ok(());
    }
    let mut e = glue("systemctl ", split::join(args, " ").as_str());
    e.append(" failed");
    Err(e)
}

/// What is run to enable the service: the steps that must succeed, in order.
pub fn enable_steps() -> (r: Vec<Vec<String>>)
    ensures
        r@.len() == 2,
        text::views(r@[0]@) == seq!["daemon-reload"@],
        text::views(r@[1]@) == seq!["enable"@, "--now"@, UNIT_NAME@],
{
    let mut reload: Vec<String> = Vec::new();
    text::push_text(&mut reload, "daemon-reload".to_owned());
    assert(text::views(reload@) == seq!["daemon-reload"@]);
    let mut enable: Vec<String> = Vec::new();
    text::push_text(&mut enable, "enable".to_owned());
    text::push_text(&mut enable, "--now".to_owned());
    text::push_text(&mut enable, UNIT_NAME.to_owned());
    assert(text::views(enable@) == seq!["enable"@, "--now"@, UNIT_NAME@]);
    let mut v: Vec<Vec<String>> = Vec::new();
    v.push(reload);
    v.push(enable);
    v
}

/// Judges what the service manager said of the service.
pub fn require_active(stdout: &[u8]) -> (r: Result<(), String>)
    ensures
        match r {
            Ok(_) => text::trimmed(bytes::text_of(stdout@)) == "active"@,
            Err(e) => text::trimmed(bytes::text_of(stdout@)) != "active"@ && e@
                == "service is not active (got '"@ + text::trimmed(bytes::text_of(stdout@))
                + "'). Check: systemctl --user status "@ + UNIT_NAME@,
        },
{
    let all = bytes::decode_lossy(stdout);
    let active = text::trim(all.as_str());
    if text::same(active, "active") {
        return Ok(());
    }
    let mut e = glue("service is not active (got '", active);
    e.append("'). Check: systemctl --user status ");
    e.append(UNIT_NAME);
    Err(e)
}

/// The address at which the service tells how it is.
pub open spec fn health_url(addr: Seq<char>) -> Seq<char> {
    "http://"@ + addr + "/health"@
}

/// The command that asks the service how it is.
pub fn health_command(listen_addr: &str) -> (r: CommandPlan)
    ensures
        r.is("curl"@, seq!["-fsS"@, "--max-time"@, "2"@, health_url(listen_addr@)]),
{
    let mut url = glue("http://", listen_addr);
    url.append("/health");
    let mut args: Vec<String> = Vec::new();
    text::push_text(&mut args, "-fsS".to_owned());
    text::push_text(&mut args, "--max-time".to_owned());
    text::push_text(&mut args, "2".to_owned());
    text::push_text(&mut args, url);
    assert(text::views(args@) == seq!["-fsS"@, "--max-time"@, "2"@, health_url(listen_addr@)]);
    CommandPlan { program: "curl".to_owned(), args }
}

/// What the service said of itself, or why it said nothing.
pub fn health_result(out: &ProgramOutput) -> (r: Result<String, String>)
    ensures
        match r {
            Ok(s) => out.success && s@ == text::trimmed(out.out_text()),
            Err(e) => !out.success && e@ == out.err_text(),
        },
{
    if !out.success {
        return Err(out.complaint());
    }
    let all = out.printed();
    Ok(text::trim(all.as_str()).to_owned())
}

/// The line on how the service is.
pub fn health_line(listen_addr: &str, health: &Result<String, String>) -> (r: String)
    ensures
        r@ == (match health {
            Ok(b) => "health: "@ + b@,
            Err(e) => "health: not ready yet ("@ + e@ + ") — wait a second and retry curl "@
                + health_url(listen_addr@),
        }),
{
    match health {
        Ok(b) => glue("health: ", b.as_str()),
        Err(e) => {
            let mut url = glue("http://", listen_addr);
            url.append("/health");
            let mut s = glue("health: not ready yet (", e.as_str());
            s.append(") — wait a second and retry curl ");
            s.append(url.as_str());
            s
        },
    }
}

/// What is said once the service runs.
pub open spec fn enabled_text(
    root: Seq<char>,
    unit_path: Seq<char>,
    addr: Seq<char>,
    listen_http: bool,
) -> Seq<Seq<char>> {
    seq![
        "service: active ("@ + UNIT_NAME@ + ")"@,
        "unit:    "@ + unit_path,
        "vault:   "@ + root,
        "incoming:"@ + vault::two_below(root, "raw"@, "incoming"@),
    ] + if listen_http {
        seq![
            "drop:    http://"@ + addr + "/send"@,
            "install: http://"@ + addr + "/send   (drag bookmark — permanent, no extension)"@,
        ]
    } else {
        Seq::empty()
    }
}

/// What is said once the service runs.
pub fn enabled_lines(cfg: &Config, unit_path: &str) -> (r: Vec<String>)
    ensures
        text::views(r@) == enabled_text(
            cfg.vault_path@,
            unit_path@,
            cfg.listen_addr@,
            cfg.listen_http,
        ),
{
    let v = VaultPaths::new(cfg.vault_path.clone());
    let mut out: Vec<String> = Vec::new();
    let mut first = glue("service: active (", UNIT_NAME);
    first.append(")");
    text::push_text(&mut out, first);
    text::push_text(&mut out, glue("unit:    ", unit_path));
    text::push_text(&mut out, glue("vault:   ", cfg.vault_path.as_str()));
    text::push_text(&mut out, glue("incoming:", v.incoming().as_str()));
    if cfg.listen_http {
        let mut drop = glue("drop:    http://", cfg.listen_addr.as_str());
        drop.append("/send");
        text::push_text(&mut out, drop);
        let mut install = glue("install: http://", cfg.listen_addr.as_str());
        install.append("/send   (drag bookmark — permanent, no extension)");
        text::push_text(&mut out, install);
    }
    assert(text::views(out@) == enabled_text(
        cfg.vault_path@,
        unit_path@,
        cfg.listen_addr@,
        cfg.listen_http,
    ));
    out
}

/// What is said of sending things day by day.
pub fn daily_lines(listen_addr: &str) -> (r: Vec<String>)
    ensures
        text::views(r@) == seq![
            "Daily send (pick one — none require reloading an extension):"@,
            "  • Bookmark: open http://"@ + listen_addr@
                + "/send once, drag button to bookmarks bar"@,
            "  • Hotkey:   bind Super+Shift+Y → research-send clip"@,
            "  • Desktop:  “Send clipboard to Grok Research” app menu entry"@,
            ""@,
            "Optional: browser extension is NOT required for daily use."@,
        ],
{
    let mut out: Vec<String> = Vec::new();
    text::push_text(
        &mut out,
        "Daily send (pick one — none require reloading an extension):".to_owned(),
    );
    let mut mark = glue("  • Bookmark: open http://", listen_addr);
    mark.append("/send once, drag button to bookmarks bar");
    text::push_text(&mut out, mark);
    text::push_text(&mut out, "  • Hotkey:   bind Super+Shift+Y → research-send clip".to_owned());
    text::push_text(
        &mut out,
        "  • Desktop:  “Send clipboard to Grok Research” app menu entry".to_owned(),
    );
    text::push_text(&mut out, "".to_owned());
    text::push_text(
        &mut out,
        "Optional: browser extension is NOT required for daily use.".to_owned(),
    );
    assert(text::views(out@) == seq![
        "Daily send (pick one — none require reloading an extension):"@,
        mark@,
        "  • Hotkey:   bind Super+Shift+Y → research-send clip"@,
        "  • Desktop:  “Send clipboard to Grok Research” app menu entry"@,
        ""@,
        "Optional: browser extension is NOT required for daily use."@,
    ]);
    out
}

/// The unit runs the watcher of the user, restarts it whenever it stops, finds the programs
/// of the user, and never hands a key to Grok.
pub proof fn the_unit_runs_the_watcher(home: Seq<char>, user: Seq<char>)
    ensures
        ({
            let u = unit_text(Some(home), user);
            &&& search::occurs(u, home + "/.cargo/bin/research-ingest watch\nRestart=always\n"@)
            &&& search::occurs(u, search_path(home, user))
            &&& search::occurs(u, "\nEnvironment=HOME="@ + home)
            &&& search::occurs(u, "\nEnvironment=XAI_API_KEY=\n"@)
            &&& search::occurs(search_path(home, user), home + "/.cargo/bin:"@)
            &&& search::occurs(search_path(home, user), user)
        }),
{
    let head = "[Unit]\nDescription=research-ingest always-on vault watcher + Brave drop\nAfter=default.target network-online.target\nWants=network-online.target\n\n[Service]\nType=simple\nExecStart="@;
    let run = "/.cargo/bin/research-ingest watch\nRestart=always\nRestartSec=3\n# Full tool PATH for OCR / whisper / grok session\nEnvironment=PATH="@;
    let path = search_path(home, user);
    let tail = "\nEnvironment=RUST_LOG=info\n# SuperGrok session only — never bill console API tokens from the daemon\nEnvironment=XAI_API_KEY=\n# Ensure no empty key confuses some CLIs\nPassEnvironment=HOME\n\n[Install]\nWantedBy=default.target\n"@;
    let s1 = head + home;
    let s2 = s1 + run;
    let s3 = s2 + path;
    let s4 = s3 + "\nEnvironment=HOME="@;
    let s5 = s4 + home;
    let short = "/.cargo/bin/research-ingest watch\nRestart=always\n"@;
    let more = "RestartSec=3\n# Full tool PATH for OCR / whisper / grok session\nEnvironment=PATH="@;
    assert(run == short + more) by {
        reveal_strlit(
            "/.cargo/bin/research-ingest watch\nRestart=always\nRestartSec=3\n# Full tool PATH for OCR / whisper / grok session\nEnvironment=PATH=",
        );
        reveal_strlit("/.cargo/bin/research-ingest watch\nRestart=always\n");
        reveal_strlit(
            "RestartSec=3\n# Full tool PATH for OCR / whisper / grok session\nEnvironment=PATH=",
        );
    }
    search::lemma_occurs_end(head, home, short);
    search::lemma_occurs_add(s1 + short, more);
    assert(s2 == (s1 + short) + more);
    search::lemma_occurs_itself(path);
    search::lemma_occurs_add(s2, path);
    search::lemma_occurs_add(s3, "\nEnvironment=HOME="@);
    search::lemma_occurs_add(s4, home);
    search::lemma_occurs_end(s3, "\nEnvironment=HOME="@, home);
    search::lemma_occurs_add(s5, tail);
    lemma_no_key();
    lemma_search_path(home, user);
}

proof fn lemma_no_key()
    ensures
        search::occurs(
            "\nEnvironment=RUST_LOG=info\n# SuperGrok session only — never bill console API tokens from the daemon\nEnvironment=XAI_API_KEY=\n# Ensure no empty key confuses some CLIs\nPassEnvironment=HOME\n\n[Install]\nWantedBy=default.target\n"@,
            "\nEnvironment=XAI_API_KEY=\n"@,
        ),
{
    let a = "\nEnvironment=RUST_LOG=info\n# SuperGrok session only — never bill console API tokens from the daemon"@;
    let b = "\nEnvironment=XAI_API_KEY=\n"@;
    let c = "# Ensure no empty key confuses some CLIs\nPassEnvironment=HOME\n\n[Install]\nWantedBy=default.target\n"@;
    reveal_strlit(
        "\nEnvironment=RUST_LOG=info\n# SuperGrok session only — never bill console API tokens from the daemon\nEnvironment=XAI_API_KEY=\n# Ensure no empty key confuses some CLIs\nPassEnvironment=HOME\n\n[Install]\nWantedBy=default.target\n",
    );
    reveal_strlit(
        "\nEnvironment=RUST_LOG=info\n# SuperGrok session only — never bill console API tokens from the daemon",
    );
    reveal_strlit("\nEnvironment=XAI_API_KEY=\n");
    reveal_strlit(
        "# Ensure no empty key confuses some CLIs\nPassEnvironment=HOME\n\n[Install]\nWantedBy=default.target\n",
    );
    assert("\nEnvironment=RUST_LOG=info\n# SuperGrok session only — never bill console API tokens from the daemon\nEnvironment=XAI_API_KEY=\n# Ensure no empty key confuses some CLIs\nPassEnvironment=HOME\n\n[Install]\nWantedBy=default.target\n"@
        == a + b + c);
    search::lemma_has_middle(a, b, c);
}

proof fn lemma_search_path(home: Seq<char>, user: Seq<char>)
    ensures
        search::occurs(search_path(home, user), home + "/.cargo/bin:"@),
        search::occurs(search_path(home, user), user),
{
    let s1 = home + "/.cargo/bin:"@;
    let s2 = s1 + home;
    let s3 = s2 + "/.nix-profile/bin:"@;
    let s4 = s3 + home;
    let s5 = s4 + "/.local/bin:/etc/profiles/per-user/"@;
    let s6 = s5 + user;
    search::lemma_occurs_itself(s1);
    search::lemma_occurs_itself(user);
    search::lemma_occurs_add(s1, home);
    search::lemma_occurs_add(s2, "/.nix-profile/bin:"@);
    search::lemma_occurs_add(s3, home);
    search::lemma_occurs_add(s4, "/.local/bin:/etc/profiles/per-user/"@);
    search::lemma_occurs_add(s5, user);
    search::lemma_occurs_add(s6, "/bin:/run/current-system/sw/bin:/usr/local/bin:/usr/bin:/bin"@);
}

/// The state of the server is asked for where it is answered, and what is said when the
/// service was enabled names the vault, where files are dropped, and the address to send to.
pub proof fn addresses_are_told(root: Seq<char>, unit_path: Seq<char>, addr: Seq<char>)
    ensures
        text::begins(health_url(addr), "http://"@ + addr),
        text::ends(health_url(addr), addr + "/health"@),
        ({
            let l = enabled_text(root, unit_path, addr, true);
            &&& text::ends(l[1], unit_path)
            &&& text::ends(l[2], root)
            &&& text::ends(l[3], paths::under(paths::under(root, "raw"@), "incoming"@))
            &&& text::ends(l[4], "http://"@ + addr + "/send"@)
            &&& search::occurs(l[5], "http://"@ + addr + "/send"@)
            &&& enabled_text(root, unit_path, addr, false) == l.take(4)
        }),
{
    let u = health_url(addr);
    let a = "http://"@ + addr;
    assert(u.take(a.len() as int) == a);
    let b = addr + "/health"@;
    assert(u.skip(u.len() - b.len()) == b);
    let l = enabled_text(root, unit_path, addr, true);
    lemma_ends("unit:    "@, unit_path);
    lemma_ends("vault:   "@, root);
    lemma_ends("incoming:"@, vault::two_below(root, "raw"@, "incoming"@));
    let s = "http://"@ + addr + "/send"@;
    assert("drop:    http://"@ == "drop:    "@ + "http://"@) by {
        reveal_strlit("drop:    http://");
        reveal_strlit("drop:    ");
        reveal_strlit("http://");
    }
    lemma_ends("drop:    "@, s);
    assert(l[4] == "drop:    "@ + s);
    let more = "   (drag bookmark — permanent, no extension)"@;
    assert("install: http://"@ == "install: "@ + "http://"@) by {
        reveal_strlit("install: http://");
        reveal_strlit("install: ");
        reveal_strlit("http://");
    }
    assert("/send   (drag bookmark — permanent, no extension)"@ == "/send"@ + more) by {
        reveal_strlit("/send   (drag bookmark — permanent, no extension)");
        reveal_strlit("/send");
        reveal_strlit("   (drag bookmark — permanent, no extension)");
    }
    search::lemma_has_middle("install: "@, s, more);
    assert(l[5] == "install: "@ + s + more);
    assert(enabled_text(root, unit_path, addr, false) == l.take(4));
}

proof fn lemma_ends(a: Seq<char>, b: Seq<char>)
    ensures
        text::ends(a + b, b),
{
    assert((a + b).skip((a + b).len() - b.len()) == b);
}

} // verus!
