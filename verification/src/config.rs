//! User configuration, and where it is kept.

use vstd::prelude::*;
use vstd::string::*;

use crate::paths;
use crate::search;
use crate::text;
use crate::tools;
use crate::tools::ToolsConfig;

verus! {

/// How language work runs. Default is subscription session only.
#[derive(Debug, Clone, Copy, PartialEq, Eq, Structural)]
pub enum AiBackend {
    /// Headless `grok` CLI with OAuth session (SuperGrok). No API key.
    GrokSession,
    /// Extract and queue only. You run Grok by hand or through MCP.
    QueueOnly,
}

impl Default for AiBackend {
    fn default() -> (r: AiBackend)
        ensures
            r == AiBackend::GrokSession,
    {
        AiBackend::GrokSession
    }
}

/// Settings for headless Grok Build / Grok CLI.
#[derive(Debug, Clone)]
pub struct GrokSessionConfig {
    /// Binary name or absolute path.
    pub binary: String,
    /// Model flag value; none means the CLI's own default.
    pub model: Option<String>,
    /// More CLI arguments after the prompt flags.
    pub extra_args: Vec<String>,
    /// Pass `--yolo` so tools can write without prompts in headless mode.
    pub yolo: bool,
    /// Most seconds to wait for one headless run.
    pub timeout_secs: u64,
    /// Reasoning effort, if supported.
    pub effort: Option<String>,
    /// Retries when the answer fails JSON validation.
    pub max_retries: u32,
}

impl GrokSessionConfig {
    /// The settings that hold where nothing is configured.
    pub open spec fn is_default(self) -> bool {
        &&& self.binary@ == "grok"@
        &&& self.model is None
        &&& self.extra_args@.len() == 0
        &&& self.yolo
        &&& self.timeout_secs == 600
        &&& text::opt_view(self.effort) == Some("high"@)
        &&& self.max_retries == 2
    }
}

impl Default for GrokSessionConfig {
    fn default() -> (r: GrokSessionConfig)
        ensures
            r.is_default(),
    {
        GrokSessionConfig {
            binary: default_grok_bin(),
            model: None,
            extra_args: Vec::new(),
            yolo: default_true(),
            timeout_secs: default_timeout_secs(),
            effort: Some("high".to_owned()),
            max_retries: default_ai_retries(),
        }
    }
}

/// How often an answer that fails validation is asked for again.
pub fn default_ai_retries() -> (r: u32)
    ensures
        r == 2,
{
    2
}

/// The name of the Grok binary.
pub fn default_grok_bin() -> (r: String)
    ensures
        r@ == "grok"@,
{
    "grok".to_owned()
}

/// Switches are on unless they are turned off.
pub fn default_true() -> (r: bool)
    ensures
        r,
{
    true
}

/// Seconds to wait for one headless run.
pub fn default_timeout_secs() -> (r: u64)
    ensures
        r == 600,
{
    600
}

/// Where the local drop server listens.
pub fn default_listen_addr() -> (r: String)
    ensures
        r@ == "127.0.0.1:18765"@,
{
    "127.0.0.1:18765".to_owned()
}

/// Milliseconds that filesystem events are gathered.
pub fn default_debounce_ms() -> (r: u64)
    ensures
        r == 400,
{
    400
}

/// Characters of an extract that are sent to Grok.
pub fn default_max_extract_chars() -> (r: usize)
    ensures
        r == 48_000,
{
    48_000
}

/// Root application config.
#[derive(Debug, Clone)]
pub struct Config {
    /// Path to the Obsidian vault root.
    pub vault_path: String,
    /// AI backend. Default: grok-session (no xAI API keys).
    pub ai_backend: AiBackend,
    pub grok: GrokSessionConfig,
    /// Process files that lie in `raw/incoming` on start.
    pub process_existing_on_start: bool,
    /// Debounce milliseconds for filesystem events.
    pub debounce_ms: u64,
    /// Path to the system prompt file for ingestion (optional override).
    pub ingest_prompt_path: Option<String>,
    /// Most characters of extracted text to send to Grok per item.
    pub max_extract_chars: usize,
    /// OCR / ffmpeg / whisper tools.
    pub tools: ToolsConfig,
    /// Local HTTP drop for the browser.
    pub listen_addr: String,
    /// Run the local HTTP drop server while watching.
    pub listen_http: bool,
}

impl Config {
    /// The settings that hold where nothing is configured, with the vault at `vault`.
    pub open spec fn is_default(self, vault: Seq<char>) -> bool {
        &&& self.vault_path@ == vault
        &&& self.ai_backend == AiBackend::GrokSession
        &&& self.grok.is_default()
        &&& self.process_existing_on_start
        &&& self.debounce_ms == 400
        &&& self.ingest_prompt_path is None
        &&& self.max_extract_chars == 48_000
        &&& self.tools.is_default()
        &&& self.listen_addr@ == "127.0.0.1:18765"@
        &&& self.listen_http
    }
}

/// `Documents/Obsidian Vault` in the home directory, or `Obsidian Vault` where
/// there is none.
pub open spec fn vault_in(home: Option<Seq<char>>) -> Seq<char> {
    match home {
        Some(h) => paths::under(paths::under(h, "Documents"@), "Obsidian Vault"@),
        None => "Obsidian Vault"@,
    }
}

/// `p` with a leading `~` standing for the home directory.
pub open spec fn expanded(p: Seq<char>, home: Option<Seq<char>>) -> Seq<char> {
    match home {
        Some(h) => if text::begins(p, "~/"@) {
            paths::under(h, p.skip(2))
        } else if p == "~"@ {
            h
        } else {
            p
        },
        None => p,
    }
}

/// `directories::UserDirs::home_dir`: the home directory of the user, if there is
/// one. It rests on the machine, so nothing is claimed of it.
#[verifier::external_body]
pub(crate) fn home_dir() -> (r: Option<String>) {
    directories::UserDirs::new().map(|u| u.home_dir().to_string_lossy().into_owned())
}

/// `directories::ProjectDirs::config_dir` of this project, if the machine has a place
/// for it. Where that is rests on the machine; on every platform the name of the
/// application is a part of the path. Nothing else is claimed of it.
#[verifier::external_body]
fn project_config_dir(qualifier: &str, organization: &str, application: &str) -> (r: Option<String>)
    requires
        qualifier@ == "dev"@,
        organization@ == "theesfeld"@,
        application@ == "research-ingest"@,
    ensures
        r matches Some(d) ==> search::occurs(d@, application@),
{
    directories::ProjectDirs::from(qualifier, organization, application)
        .map(|p| p.config_dir().to_string_lossy().into_owned())
}

/// `directories::ProjectDirs::data_local_dir` of this project, if the machine has a
/// place for it. Where that is rests on the machine; on every platform the name of the
/// application is a part of the path. Nothing else is claimed of it.
#[verifier::external_body]
fn project_data_dir(qualifier: &str, organization: &str, application: &str) -> (r: Option<String>)
    requires
        qualifier@ == "dev"@,
        organization@ == "theesfeld"@,
        application@ == "research-ingest"@,
    ensures
        r matches Some(d) ==> search::occurs(d@, application@),
{
    directories::ProjectDirs::from(qualifier, organization, application)
        .map(|p| p.data_local_dir().to_string_lossy().into_owned())
}

/// The default vault under a given home directory.
pub fn default_vault_in(home: Option<&str>) -> (r: String)
    ensures
        r@ == vault_in(text::opt_str(home)),
{
    match home {
        Some(h) => {
            let docs = paths::join(h, "Documents");
            paths::join(docs.as_str(), "Obsidian Vault")
        },
        None => "Obsidian Vault".to_owned(),
    }
}

/// Default vault: `~/Documents/Obsidian Vault`.
pub fn default_vault_path() -> (r: String)
    ensures
        exists|home: Option<Seq<char>>| r@ == #[trigger] vault_in(home),
{
    let home = home_dir();
    default_vault_in(as_str_opt(&home))
}

/// `o` as an optional slice.
pub(crate) fn as_str_opt(o: &Option<String>) -> (r: Option<&str>)
    ensures
        text::opt_str(r) == text::opt_view(*o),
{
    match o {
        Some(s) => Some(s.as_str()),
        None => None,
    }
}

/// The config directory that the platform gives, or `.config/research-ingest`.
pub open spec fn config_dir_text(dir: Option<Seq<char>>) -> Seq<char> {
    match dir {
        Some(d) => d,
        None => ".config/research-ingest"@,
    }
}

/// The state directory that the platform gives, or `.local/share/research-ingest`.
pub open spec fn state_dir_text(dir: Option<Seq<char>>) -> Seq<char> {
    match dir {
        Some(d) => d,
        None => ".local/share/research-ingest"@,
    }
}

/// The directory is one of this project: its path holds the name of the project.
pub open spec fn names_project(dir: Seq<char>) -> bool {
    search::occurs(dir, "research-ingest"@)
}

/// The config directory, given what the platform says of it.
pub fn config_dir_in(dir: Option<String>) -> (r: String)
    ensures
        r@ == config_dir_text(text::opt_view(dir)),
{
    match dir {
        Some(d) => d,
        None => ".config/research-ingest".to_owned(),
    }
}

/// The state directory, given what the platform says of it.
pub fn state_dir_in(dir: Option<String>) -> (r: String)
    ensures
        r@ == state_dir_text(text::opt_view(dir)),
{
    match dir {
        Some(d) => d,
        None => ".local/share/research-ingest".to_owned(),
    }
}

/// Config directory: `~/.config/research-ingest/`.
pub fn config_dir() -> (r: String)
    ensures
        names_project(r@),
{
    proof {
        reveal_strlit(".config/research-ingest");
        reveal_strlit("research-ingest");
        assert(".config/research-ingest"@.subrange(8, 23) == "research-ingest"@);
        assert(search::occurs_at(".config/research-ingest"@, "research-ingest"@, 8));
    }
    config_dir_in(project_config_dir("dev", "theesfeld", "research-ingest"))
}

/// State directory for the job queue: `~/.local/share/research-ingest/`.
pub fn state_dir() -> (r: String)
    ensures
        names_project(r@),
{
    proof {
        reveal_strlit(".local/share/research-ingest");
        reveal_strlit("research-ingest");
        assert(".local/share/research-ingest"@.subrange(13, 28) == "research-ingest"@);
        assert(search::occurs_at(".local/share/research-ingest"@, "research-ingest"@, 13));
    }
    state_dir_in(project_data_dir("dev", "theesfeld", "research-ingest"))
}

/// Where the config file stands in the config directory.
pub open spec fn config_file_in(dir: Seq<char>) -> Seq<char> {
    paths::under(dir, "config.toml"@)
}

impl Default for Config {
    fn default() -> (r: Config)
        ensures
            exists|home: Option<Seq<char>>| r.is_default(#[trigger] vault_in(home)),
    {
        let home = home_dir();
        Config::default_in(as_str_opt(&home))
    }
}

impl Config {
    /// The default settings under a given home directory.
    pub fn default_in(home: Option<&str>) -> (r: Config)
        ensures
            r.is_default(vault_in(text::opt_str(home))),
    {
        Config {
            vault_path: default_vault_in(home),
            ai_backend: AiBackend::default(),
            grok: GrokSessionConfig::default(),
            process_existing_on_start: default_true(),
            debounce_ms: default_debounce_ms(),
            ingest_prompt_path: None,
            max_extract_chars: default_max_extract_chars(),
            tools: ToolsConfig::default(),
            listen_addr: default_listen_addr(),
            listen_http: default_true(),
        }
    }

    /// Where the config file stands.
    pub fn config_file_path() -> (r: String)
        ensures
            exists|dir: Seq<char>| names_project(dir) && r@ == #[trigger] config_file_in(dir),
    {
        let dir = config_dir();
        let file = paths::join(dir.as_str(), "config.toml");
        assert(file@ == config_file_in(dir@));
        file
    }

    /// The settings that were read, or the defaults where none could be.
    pub fn load_or_default(loaded: Option<Config>) -> (r: Config)
        ensures
            match loaded {
                Some(c) => r == c,
                None => exists|home: Option<Seq<char>>| r.is_default(#[trigger] vault_in(home)),
            },
    {
        match loaded {
            Some(c) => c,
            None => Config::default(),
        }
    }

    /// These settings with another vault; a leading `~` in it is the home directory.
    pub fn with_vault(self, vault: &str) -> (r: Config)
        ensures
            exists|home: Option<Seq<char>>|
                r.vault_path@ == #[trigger] expanded(vault@, home),
            r == (Config { vault_path: r.vault_path, ..self }),
    {
        let mut c = self;
        c.vault_path = expand_tilde(vault);
        c
    }
}

/// Expand a leading `~` to a given home directory.
pub fn expand_tilde_in(path: &str, home: Option<&str>) -> (r: String)
    ensures
        r@ == expanded(path@, text::opt_str(home)),
{
    match home {
        Some(h) => {
            match text::after_prefix(path, "~/") {
                Some(rest) => {
                    proof {
                        reveal_strlit("~/");
                    }
                    paths::join(h, rest)
                },
                None => {
                    if text::same(path, "~") {
                        h.to_owned()
                    } else {
                        path.to_owned()
                    }
                },
            }
        },
        None => path.to_owned(),
    }
}

/// Expand a leading `~` to the home directory.
pub fn expand_tilde(path: &str) -> (r: String)
    ensures
        exists|home: Option<Seq<char>>| r@ == #[trigger] expanded(path@, home),
{
    let home = home_dir();
    expand_tilde_in(path, as_str_opt(&home))
}

/// Resolve the vault from the command line, or else from the settings read.
pub fn resolve_vault(cli_vault: Option<&str>, loaded: Option<Config>) -> (r: String)
    ensures
        match cli_vault {
            Some(p) => exists|home: Option<Seq<char>>| r@ == #[trigger] expanded(p@, home),
            None => match loaded {
                Some(c) => r@ == c.vault_path@,
                None => exists|home: Option<Seq<char>>| r@ == #[trigger] vault_in(home),
            },
        },
{
    match cli_vault {
        Some(p) => expand_tilde(p),
        None => Config::load_or_default(loaded).vault_path,
    }
}

/// A path that does not start with `~` is left alone, whatever the home directory.
pub proof fn paths_without_tilde_stay(p: Seq<char>, home: Option<Seq<char>>)
    requires
        p.len() == 0 || p[0] != '~',
    ensures
        expanded(p, home) == p,
{
    reveal_strlit("~/");
    reveal_strlit("~");
    if text::begins(p, "~/"@) {
        assert(p.take(2)[0] == "~/"@[0]);
    }
}

/// Expanding twice is expanding once, where the home directory is no `~` itself.
pub proof fn expansion_is_final(p: Seq<char>, home: Seq<char>)
    requires
        home.len() > 0,
        home[0] != '~',
    ensures
        expanded(expanded(p, Some(home)), Some(home)) == expanded(p, Some(home)),
{
    reveal_strlit("~/");
    reveal_strlit("~");
    let q = expanded(p, Some(home));
    if text::begins(p, "~/"@) {
        assert(q[0] == '/' || q[0] == home[0]);
        paths_without_tilde_stay(q, Some(home));
    } else if p == "~"@ {
        paths_without_tilde_stay(q, Some(home));
    }
}

/// A path that starts at home lies there: what follows the tilde and the slash is taken from
/// the home directory, and a tilde alone is that directory.
pub proof fn tilde_means_home(rest: Seq<char>, home: Seq<char>)
    ensures
        expanded("~/"@ + rest, Some(home)) == paths::under(home, rest),
        expanded("~"@, Some(home)) == home,
        expanded("~/"@ + rest, None) == "~/"@ + rest,
{
    reveal_strlit("~/");
    reveal_strlit("~");
    let p = "~/"@ + rest;
    assert(p.take(2) == "~/"@);
    assert(p.skip(2) == rest);
}

/// The vault that is used where none is set lies in the documents of the user.
pub proof fn the_default_vault_lies_at_home(home: Seq<char>)
    ensures
        vault_in(Some(home)) == paths::under(paths::under(home, "Documents"@), "Obsidian Vault"@),
        paths::inside(vault_in(Some(home)), home),
{
    assert(paths::plain_name("Documents"@)) by {
        reveal_strlit("Documents");
        assert("Documents"@.len() == 9);
    }
    assert(paths::plain_name("Obsidian Vault"@)) by {
        reveal_strlit("Obsidian Vault");
        assert("Obsidian Vault"@.len() == 14);
    }
    let d = paths::under(home, "Documents"@);
    paths::lemma_components_under(home, "Documents"@);
    paths::lemma_components_under(d, "Obsidian Vault"@);
    paths::lemma_inside_trans(vault_in(Some(home)), d, home);
}

/// The settings that are used where none are made listen on this machine alone and use the
/// session of Grok, not a key.
pub proof fn defaults_stay_on_this_machine(c: Config, vault: Seq<char>)
    requires
        c.is_default(vault),
    ensures
        c.vault_path@ == vault,
        text::begins(c.listen_addr@, "127.0.0.1:"@),
        c.ai_backend == AiBackend::GrokSession,
        c.max_extract_chars > 0,
        c.grok.timeout_secs > 0,
        c.process_existing_on_start,
{
    reveal_strlit("127.0.0.1:18765");
    reveal_strlit("127.0.0.1:");
    assert("127.0.0.1:18765"@.take(10) == "127.0.0.1:"@);
}

/// The directories are those that the platform gives, and else lie below the current one; the
/// config file stands in the directory of the config.
pub proof fn the_platform_says_where(dir: Seq<char>)
    ensures
        config_dir_text(Some(dir)) == dir,
        state_dir_text(Some(dir)) == dir,
        text::begins(config_dir_text(None), ".config/"@),
        text::begins(state_dir_text(None), ".local/share/"@),
        text::ends(config_dir_text(None), "/research-ingest"@),
        text::ends(state_dir_text(None), "/research-ingest"@),
        text::ends(config_file_in(dir), "config.toml"@),
        dir.len() > 0 && dir.last() != '/' ==> config_file_in(dir) == dir + "/config.toml"@,
{
    reveal_strlit(".config/research-ingest");
    reveal_strlit(".local/share/research-ingest");
    reveal_strlit("/research-ingest");
    reveal_strlit(".config/");
    reveal_strlit(".local/share/");
    reveal_strlit("config.toml");
    reveal_strlit("/config.toml");
    assert(".config/research-ingest"@.take(8) == ".config/"@);
    assert(".config/research-ingest"@.skip(7) == "/research-ingest"@);
    assert(".local/share/research-ingest"@.take(13) == ".local/share/"@);
    assert(".local/share/research-ingest"@.skip(12) == "/research-ingest"@);
    let f = config_file_in(dir);
    assert(f.skip(f.len() - 11) == "config.toml"@);
    assert("/config.toml"@ == seq!['/'] + "config.toml"@);
}

} // verus!
