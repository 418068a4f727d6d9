//! Outside programs for OCR and transcripts: which are wanted, and where they are.

use vstd::prelude::*;
use vstd::string::*;
use vstd::utf8::*;

use crate::bytes;
use crate::config;
use crate::paths;
use crate::search;
use crate::text;

verus! {

/// Paths and toggles for OCR / media tools.
#[derive(Debug, Clone)]
pub struct ToolsConfig {
    pub enable_ocr: bool,
    pub enable_transcript: bool,
    /// Tesseract binary (name or absolute path).
    pub tesseract: Option<String>,
    /// OCR language(s), e.g. `eng` or `eng+deu`.
    pub ocr_lang: String,
    pub ffmpeg: Option<String>,
    pub ffprobe: Option<String>,
    /// whisper.cpp CLI (`whisper-cli`).
    pub whisper: Option<String>,
    /// Path to a ggml model (e.g. `ggml-base.en.bin`).
    pub whisper_model: Option<String>,
    /// Whisper language (`en`, `auto`, …).
    pub whisper_lang: String,
    /// Whisper threads (0 = leave default).
    pub whisper_threads: u32,
    /// Most seconds of media to transcribe (0 = full file).
    pub transcript_max_secs: u64,
}

impl ToolsConfig {
    /// The settings that hold where nothing is configured.
    pub open spec fn is_default(self) -> bool {
        &&& self.enable_ocr
        &&& self.enable_transcript
        &&& self.tesseract is None
        &&& self.ocr_lang@ == "eng"@
        &&& self.ffmpeg is None
        &&& self.ffprobe is None
        &&& self.whisper is None
        &&& self.whisper_model is None
        &&& self.whisper_lang@ == "en"@
        &&& self.whisper_threads == 0
        &&& self.transcript_max_secs == 0
    }
}

/// The language that Tesseract reads.
pub fn default_ocr_lang() -> (r: String)
    ensures
        r@ == "eng"@,
{
    "eng".to_owned()
}

/// The language that Whisper hears.
pub fn default_whisper_lang() -> (r: String)
    ensures
        r@ == "en"@,
{
    "en".to_owned()
}

impl Default for ToolsConfig {
    fn default() -> (r: ToolsConfig)
        ensures
            r.is_default(),
    {
        ToolsConfig {
            enable_ocr: true,
            enable_transcript: true,
            tesseract: None,
            ocr_lang: default_ocr_lang(),
            ffmpeg: None,
            ffprobe: None,
            whisper: None,
            whisper_model: None,
            whisper_lang: default_whisper_lang(),
            whisper_threads: 0,
            transcript_max_secs: 0,
        }
    }
}

/// What was seen of the machine: where the user's files are, which of the files
/// that were looked for exist, where the programs that were looked up stand, and
/// what lies in the directory of models.
#[derive(Debug, Clone)]
pub struct ToolProbe {
    pub home: Option<String>,
    pub state_dir: String,
    /// The files that exist.
    pub files: Vec<String>,
    /// Names of programs that were found, with their paths.
    pub found: Vec<(String, String)>,
    /// The entries of the directory of models, in the order they were read.
    pub model_entries: Vec<String>,
}

/// The path under which `name` was found, in a list of names and paths.
pub open spec fn looked_up(found: Seq<(String, String)>, name: Seq<char>) -> Option<Seq<char>>
    decreases found.len(),
{
    if found.len() == 0 {
        None
    } else if found[0].0@ == name {
        Some(found[0].1@)
    } else {
        looked_up(found.drop_first(), name)
    }
}

/// The first of `names` that was found.
pub open spec fn first_found(found: Seq<(String, String)>, names: Seq<Seq<char>>) -> Option<
    Seq<char>,
>
    decreases names.len(),
{
    if names.len() == 0 {
        None
    } else if looked_up(found, names[0]) is Some {
        looked_up(found, names[0])
    } else {
        first_found(found, names.drop_first())
    }
}

/// The first of `names` that exists as a file in `dir`.
pub open spec fn first_existing(files: Seq<Seq<char>>, dir: Seq<char>, names: Seq<Seq<char>>) -> Option<
    Seq<char>,
>
    decreases names.len(),
{
    if names.len() == 0 {
        None
    } else if files.contains(paths::under(dir, names[0])) {
        Some(paths::under(dir, names[0]))
    } else {
        first_existing(files, dir, names.drop_first())
    }
}

/// The file is named like a Whisper model.
pub open spec fn is_model_file(p: Seq<char>) -> bool {
    paths::extension_of(p) == Some("bin"@) && (match paths::name_of(p) {
        Some(n) => text::begins(n, "ggml-"@),
        None => false,
    })
}

/// The first entry that is named like a Whisper model.
pub open spec fn first_model(entries: Seq<Seq<char>>) -> Option<Seq<char>>
    decreases entries.len(),
{
    if entries.len() == 0 {
        None
    } else if is_model_file(entries[0]) {
        Some(entries[0])
    } else {
        first_model(entries.drop_first())
    }
}

/// The names of models that are preferred, best first.
pub open spec fn model_names() -> Seq<Seq<char>> {
    seq![
        "ggml-base.en.bin"@,
        "ggml-small.en.bin"@,
        "ggml-tiny.en.bin"@,
        "ggml-base.bin"@,
        "ggml-small.bin"@,
        "ggml-tiny.bin"@,
        "ggml-medium.en.bin"@,
    ]
}

impl ToolProbe {
    /// The home directory that was seen.
    pub open spec fn home_view(self) -> Option<Seq<char>> {
        text::opt_view(self.home)
    }

    /// The directory in which models are looked for.
    pub open spec fn models_dir(self) -> Seq<char> {
        paths::under(self.state_dir@, "models"@)
    }

    /// Where a program stands: the configured path if it is a file, else where the
    /// configured name was found, else where the first of `names` was found.
    pub open spec fn program(self, configured: Option<Seq<char>>, names: Seq<Seq<char>>) -> Option<
        Seq<char>,
    > {
        match configured {
            Some(c) => {
                let p = config::expanded(c, self.home_view());
                if text::views(self.files@).contains(p) {
                    Some(p)
                } else if looked_up(self.found@, c) is Some {
                    looked_up(self.found@, c)
                } else {
                    first_found(self.found@, names)
                }
            },
            None => first_found(self.found@, names),
        }
    }

    /// Where the model stands if none is configured, or the configured one is missing.
    pub open spec fn fallback_model(self) -> Option<Seq<char>> {
        let known = first_existing(text::views(self.files@), self.models_dir(), model_names());
        if known is Some {
            known
        } else {
            first_model(text::views(self.model_entries@))
        }
    }

    /// Where the model stands: the configured file, else a well-known one, else any.
    pub open spec fn model(self, configured: Option<Seq<char>>) -> Option<Seq<char>> {
        match configured {
            Some(c) => {
                let p = config::expanded(c, self.home_view());
                if text::views(self.files@).contains(p) {
                    Some(p)
                } else {
                    self.fallback_model()
                }
            },
            None => self.fallback_model(),
        }
    }

    /// A probe of this user's directories that has looked for nothing yet.
    pub fn new() -> (r: ToolProbe)
        ensures
            r.files@.len() == 0,
            r.found@.len() == 0,
            r.model_entries@.len() == 0,
            config::names_project(r.state_dir@),
    {
        ToolProbe {
            home: config::home_dir(),
            state_dir: config::state_dir(),
            files: Vec::new(),
            found: Vec::new(),
            model_entries: Vec::new(),
        }
    }
}

/// The path under which `name` was found.
fn look_up(found: &Vec<(String, String)>, name: &str) -> (r: Option<String>)
    ensures
        text::opt_view(r) == looked_up(found@, name@),
{
    let mut i: usize = 0;
    assert(found@.skip(0) == found@);
    while i < found.len()
        invariant
            i <= found@.len(),
            looked_up(found@, name@) == looked_up(found@.skip(i as int), name@),
        decreases found@.len() - i,
    {
        let ghost rest = found@.skip(i as int);
        assert(rest[0] == found@[i as int]);
        if text::same(found[i].0.as_str(), name) {
            return Some(found[i].1.clone());
        }
        assert(rest.drop_first() == found@.skip(i + 1));
        i = i + 1;
    }
    None
}

/// Where a program stands, given what was seen of the machine.
fn resolve_bin(probe: &ToolProbe, configured: &Option<String>, names: &Vec<&str>) -> (r: Option<
    String,
>)
    ensures
        text::opt_view(r) == probe.program(text::opt_view(*configured), names@.map_values(|n: &str| n@)),
{
    let ghost all = names@.map_values(|n: &str| n@);
    if let Some(c) = configured {
        let p = config::expand_tilde_in(c.as_str(), config::as_str_opt(&probe.home));
        if text::listed(&probe.files, p.as_str()) {
            return Some(p);
        }
        if let Some(f) = look_up(&probe.found, c.as_str()) {
            return Some(f);
        }
    }
    let mut i: usize = 0;
    assert(all.skip(0) == all);
    while i < names.len()
        invariant
            i <= names@.len(),
            all == names@.map_values(|n: &str| n@),
            probe.program(text::opt_view(*configured), all) == first_found(probe.found@, all),
            first_found(probe.found@, all) == first_found(probe.found@, all.skip(i as int)),
        decreases names@.len() - i,
    {
        let ghost rest = all.skip(i as int);
        assert(rest[0] == names@[i as int]@);
        if let Some(f) = look_up(&probe.found, names[i]) {
            assert(first_found(probe.found@, rest) == Some(f@));
            return Some(f);
        }
        assert(rest.drop_first() == all.skip(i + 1));
        i = i + 1;
    }
    None
}

/// The names of models that are preferred.
fn known_models() -> (r: Vec<&'static str>)
    ensures
        r@.map_values(|n: &'static str| n@) == model_names(),
{
    let v: Vec<&'static str> = vec![
        "ggml-base.en.bin",
        "ggml-small.en.bin",
        "ggml-tiny.en.bin",
        "ggml-base.bin",
        "ggml-small.bin",
        "ggml-tiny.bin",
        "ggml-medium.en.bin",
    ];
    assert(v@.map_values(|n: &'static str| n@) == model_names());
    v
}

/// Whether the file is named like a Whisper model.
fn named_like_model(p: &str) -> (r: bool)
    ensures
        r == is_model_file(p@),
{
    let ext = match paths::extension(p) {
        Some(e) => e,
        None => {
            return false;
        },
    };
    if !text::same(ext.as_str(), "bin") {
        return false;
    }
    match paths::file_name(p) {
        Some(n) => text::starts_with(n.as_str(), "ggml-"),
        None => false,
    }
}

/// Where the model stands, given what was seen of the machine.
fn resolve_model(probe: &ToolProbe, configured: &Option<String>) -> (r: Option<String>)
    ensures
        text::opt_view(r) == probe.model(text::opt_view(*configured)),
{
    if let Some(c) = configured {
        let p = config::expand_tilde_in(c.as_str(), config::as_str_opt(&probe.home));
        if text::listed(&probe.files, p.as_str()) {
            return Some(p);
        }
    }
    let dir = paths::join(probe.state_dir.as_str(), "models");
    let names = known_models();
    let ghost all = model_names();
    let ghost files = text::views(probe.files@);
    let mut i: usize = 0;
    assert(all.skip(0) == all);
    while i < names.len()
        invariant
            i <= names@.len(),
            all == names@.map_values(|n: &'static str| n@),
            files == text::views(probe.files@),
            dir@ == probe.models_dir(),
            all == model_names(),
            probe.model(text::opt_view(*configured)) == probe.fallback_model(),
            first_existing(files, dir@, all) == first_existing(files, dir@, all.skip(i as int)),
        decreases names@.len() - i,
    {
        let ghost rest = all.skip(i as int);
        assert(rest[0] == names@[i as int]@);
        let p = paths::join(dir.as_str(), names[i]);
        if text::listed(&probe.files, p.as_str()) {
            assert(first_existing(files, dir@, rest) == Some(p@));
            return Some(p);
        }
        assert(rest.drop_first() == all.skip(i + 1));
        i = i + 1;
    }
    let ghost entries = text::views(probe.model_entries@);
    let mut k: usize = 0;
    assert(entries.skip(0) == entries);
    while k < probe.model_entries.len()
        invariant
            k <= probe.model_entries@.len(),
            entries == text::views(probe.model_entries@),
            probe.model(text::opt_view(*configured)) == first_model(entries),
            first_model(entries) == first_model(entries.skip(k as int)),
        decreases probe.model_entries@.len() - k,
    {
        let ghost rest = entries.skip(k as int);
        assert(rest[0] == probe.model_entries@[k as int]@);
        if named_like_model(probe.model_entries[k].as_str()) {
            return Some(probe.model_entries[k].clone());
        }
        assert(rest.drop_first() == entries.skip(k + 1));
        k = k + 1;
    }
    None
}

/// Tool paths after discovery.
#[derive(Debug, Clone)]
pub struct ResolvedTools {
    pub enable_ocr: bool,
    pub enable_transcript: bool,
    pub tesseract: Option<String>,
    pub ocr_lang: String,
    pub ffmpeg: Option<String>,
    pub ffprobe: Option<String>,
    pub whisper: Option<String>,
    pub whisper_model: Option<String>,
    pub whisper_lang: String,
    pub whisper_threads: u32,
    pub transcript_max_secs: u64,
}

impl ToolsConfig {
    /// The tools are what the settings ask for, as far as they were found.
    pub open spec fn is_resolved(self, probe: ToolProbe, r: ResolvedTools) -> bool {
        &&& r.enable_ocr == self.enable_ocr
        &&& r.enable_transcript == self.enable_transcript
        &&& r.ocr_lang@ == self.ocr_lang@
        &&& r.whisper_lang@ == self.whisper_lang@
        &&& r.whisper_threads == self.whisper_threads
        &&& r.transcript_max_secs == self.transcript_max_secs
        &&& text::opt_view(r.tesseract) == probe.program(
            text::opt_view(self.tesseract),
            seq!["tesseract"@],
        )
        &&& text::opt_view(r.ffmpeg) == probe.program(text::opt_view(self.ffmpeg), seq!["ffmpeg"@])
        &&& text::opt_view(r.ffprobe) == probe.program(
            text::opt_view(self.ffprobe),
            seq!["ffprobe"@],
        )
        &&& text::opt_view(r.whisper) == probe.program(
            text::opt_view(self.whisper),
            seq!["whisper-cli"@, "whisper"@],
        )
        &&& text::opt_view(r.whisper_model) == probe.model(text::opt_view(self.whisper_model))
    }

    /// Resolve binaries and model paths, given what was seen of the machine.
    pub fn resolve(&self, probe: &ToolProbe) -> (r: ResolvedTools)
        ensures
            r.enable_ocr == self.enable_ocr,
            r.enable_transcript == self.enable_transcript,
            r.ocr_lang@ == self.ocr_lang@,
            r.whisper_lang@ == self.whisper_lang@,
            r.whisper_threads == self.whisper_threads,
            r.transcript_max_secs == self.transcript_max_secs,
            text::opt_view(r.tesseract) == probe.program(
                text::opt_view(self.tesseract),
                seq!["tesseract"@],
            ),
            text::opt_view(r.ffmpeg) == probe.program(text::opt_view(self.ffmpeg), seq!["ffmpeg"@]),
            text::opt_view(r.ffprobe) == probe.program(
                text::opt_view(self.ffprobe),
                seq!["ffprobe"@],
            ),
            text::opt_view(r.whisper) == probe.program(
                text::opt_view(self.whisper),
                seq!["whisper-cli"@, "whisper"@],
            ),
            text::opt_view(r.whisper_model) == probe.model(text::opt_view(self.whisper_model)),
            self.is_resolved(*probe, r),
    {
        let n1: Vec<&str> = vec!["tesseract"];
        assert(n1@.map_values(|n: &str| n@) == seq!["tesseract"@]);
        let n2: Vec<&str> = vec!["ffmpeg"];
        assert(n2@.map_values(|n: &str| n@) == seq!["ffmpeg"@]);
        let n3: Vec<&str> = vec!["ffprobe"];
        assert(n3@.map_values(|n: &str| n@) == seq!["ffprobe"@]);
        let n4: Vec<&str> = vec!["whisper-cli", "whisper"];
        assert(n4@.map_values(|n: &str| n@) == seq!["whisper-cli"@, "whisper"@]);
        ResolvedTools {
            enable_ocr: self.enable_ocr,
            enable_transcript: self.enable_transcript,
            tesseract: resolve_bin(probe, &self.tesseract, &n1),
            ocr_lang: self.ocr_lang.clone(),
            ffmpeg: resolve_bin(probe, &self.ffmpeg, &n2),
            ffprobe: resolve_bin(probe, &self.ffprobe, &n3),
            whisper: resolve_bin(probe, &self.whisper, &n4),
            whisper_model: resolve_model(probe, &self.whisper_model),
            whisper_lang: self.whisper_lang.clone(),
            whisper_threads: self.whisper_threads,
            transcript_max_secs: self.transcript_max_secs,
        }
    }
}

/// The value, if there is one.
pub open spec fn one(o: Option<Seq<char>>) -> Seq<Seq<char>> {
    match o {
        Some(s) => seq![s],
        None => Seq::empty(),
    }
}

/// A configured path as it is looked for.
pub open spec fn sought(o: Option<String>, home: Option<Seq<char>>) -> Option<Seq<char>> {
    match o {
        Some(s) => Some(config::expanded(s@, home)),
        None => None,
    }
}

impl ToolsConfig {
    /// The files to look for: the configured ones, and the well-known models.
    pub open spec fn wanted_files(self, probe: ToolProbe) -> Seq<Seq<char>> {
        let h = probe.home_view();
        one(sought(self.tesseract, h)) + one(sought(self.ffmpeg, h)) + one(sought(self.ffprobe, h))
            + one(sought(self.whisper, h)) + one(sought(self.whisper_model, h))
            + model_names().map_values(|n: Seq<char>| paths::under(probe.models_dir(), n))
    }

    /// The programs to look up: the configured ones, and the usual names.
    pub open spec fn wanted_programs(self) -> Seq<Seq<char>> {
        one(text::opt_view(self.tesseract)) + one(text::opt_view(self.ffmpeg)) + one(
            text::opt_view(self.ffprobe),
        ) + one(text::opt_view(self.whisper)) + seq![
            "tesseract"@,
            "ffmpeg"@,
            "ffprobe"@,
            "whisper-cli"@,
            "whisper"@,
        ]
    }

    /// The files to look for.
    pub fn files_to_find(&self, probe: &ToolProbe) -> (r: Vec<String>)
        ensures
            text::views(r@) == self.wanted_files(*probe),
    {
        let mut out: Vec<String> = Vec::new();
        push_sought(&mut out, &self.tesseract, probe);
        push_sought(&mut out, &self.ffmpeg, probe);
        push_sought(&mut out, &self.ffprobe, probe);
        push_sought(&mut out, &self.whisper, probe);
        push_sought(&mut out, &self.whisper_model, probe);
        let ghost head = text::views(out@);
        assert(head == one(sought(self.tesseract, probe.home_view())) + one(
            sought(self.ffmpeg, probe.home_view()),
        ) + one(sought(self.ffprobe, probe.home_view())) + one(
            sought(self.whisper, probe.home_view()),
        ) + one(sought(self.whisper_model, probe.home_view())));
        let dir = paths::join(probe.state_dir.as_str(), "models");
        let names = known_models();
        let ghost all = model_names().map_values(
            |n: Seq<char>| paths::under(probe.models_dir(), n),
        );
        let mut i: usize = 0;
        assert(text::views(out@) == head + all.take(0));
        while i < names.len()
            invariant
                i <= names@.len(),
                names@.map_values(|n: &'static str| n@) == model_names(),
                dir@ == probe.models_dir(),
                all == model_names().map_values(
                    |n: Seq<char>| paths::under(probe.models_dir(), n),
                ),
                text::views(out@) == head + all.take(i as int),
            decreases names@.len() - i,
        {
            assert(model_names()[i as int] == names@[i as int]@);
            text::push_text(&mut out, paths::join(dir.as_str(), names[i]));
            assert(all.take(i + 1) == all.take(i as int).push(all[i as int]));
            i = i + 1;
        }
        assert(names@.map_values(|n: &'static str| n@).len() == names@.len());
        assert(all.take(i as int) == all);
        out
    }

    /// The programs to look up.
    pub fn programs_to_find(&self) -> (r: Vec<String>)
        ensures
            text::views(r@) == self.wanted_programs(),
    {
        let mut out: Vec<String> = Vec::new();
        push_one(&mut out, &self.tesseract);
        push_one(&mut out, &self.ffmpeg);
        push_one(&mut out, &self.ffprobe);
        push_one(&mut out, &self.whisper);
        text::push_text(&mut out, "tesseract".to_owned());
        text::push_text(&mut out, "ffmpeg".to_owned());
        text::push_text(&mut out, "ffprobe".to_owned());
        text::push_text(&mut out, "whisper-cli".to_owned());
        text::push_text(&mut out, "whisper".to_owned());
        assert(text::views(out@) == self.wanted_programs());
        out
    }
}

fn push_one(out: &mut Vec<String>, o: &Option<String>)
    ensures
        text::views(final(out)@) == text::views(old(out)@) + one(text::opt_view(*o)),
{
    let ghost before = text::views(out@);
    if let Some(s) = o {
        text::push_text(out, s.clone());
    }
    assert(text::views(out@) == before + one(text::opt_view(*o)));
}

fn push_sought(out: &mut Vec<String>, o: &Option<String>, probe: &ToolProbe)
    ensures
        text::views(final(out)@) == text::views(old(out)@) + one(sought(*o, probe.home_view())),
{
    let ghost before = text::views(out@);
    if let Some(s) = o {
        text::push_text(
            out,
            config::expand_tilde_in(s.as_str(), config::as_str_opt(&probe.home)),
        );
    }
    assert(text::views(out@) == before + one(sought(*o, probe.home_view())));
}

/// `on` or `off`.
pub open spec fn switch_text(b: bool) -> Seq<char> {
    if b {
        "on"@
    } else {
        "off"@
    }
}

/// The path, or that it is missing.
pub open spec fn path_text(p: Option<Seq<char>>) -> Seq<char> {
    match p {
        Some(p) => p,
        None => "(missing)"@,
    }
}

fn on_off(b: bool) -> (r: &'static str)
    ensures
        r@ == switch_text(b),
{
    if b {
        "on"
    } else {
        "off"
    }
}

fn disp(p: &Option<String>) -> (r: &str)
    ensures
        r@ == path_text(text::opt_view(*p)),
{
    match p {
        Some(p) => p.as_str(),
        None => "(missing)",
    }
}

/// `a` and `b` in one line.
fn line2(a: &str, b: &str) -> (r: String)
    ensures
        r@ == a@ + b@,
{
    let mut s = a.to_owned();
    s.append(b);
    s
}

impl ResolvedTools {
    /// What `doctor_lines` says of the tools, before any warning.
    pub open spec fn facts(self) -> Seq<Seq<char>> {
        seq![
            "ocr: "@ + switch_text(self.enable_ocr) + " tesseract="@ + path_text(
                text::opt_view(self.tesseract),
            ),
            "ocr_lang: "@ + self.ocr_lang@,
            "ffmpeg: "@ + path_text(text::opt_view(self.ffmpeg)),
            "ffprobe: "@ + path_text(text::opt_view(self.ffprobe)),
            "transcript: "@ + switch_text(self.enable_transcript) + " whisper="@ + path_text(
                text::opt_view(self.whisper),
            ),
            "whisper_model: "@ + path_text(text::opt_view(self.whisper_model)),
            "whisper_lang: "@ + self.whisper_lang@,
        ]
    }

    /// One warning for each tool that is switched on and missing.
    pub open spec fn warnings(self, state: Seq<char>) -> Seq<Seq<char>> {
        let a = if self.enable_ocr && self.tesseract is None {
            seq![
                "WARN: OCR enabled but tesseract not found (nix profile install nixpkgs#tesseract)"@,
            ]
        } else {
            Seq::empty()
        };
        let b = if self.enable_transcript && self.whisper is None {
            a.push("WARN: transcript enabled but whisper-cli not found (nixpkgs#whisper-cpp)"@)
        } else {
            a
        };
        let c = if self.enable_transcript && self.whisper_model is None {
            b.push(
                "WARN: no whisper model; place ggml-*.bin in "@ + paths::under(state, "models"@)
                    + " or set tools.whisper_model"@,
            )
        } else {
            b
        };
        if self.enable_transcript && self.ffmpeg is None {
            c.push("WARN: ffmpeg missing; video→audio extract needs ffmpeg (nixpkgs#ffmpeg)"@)
        } else {
            c
        }
    }

    /// A report on the tools, with the state directory given.
    pub fn doctor_lines_in(&self, state: &str) -> (r: Vec<String>)
        ensures
            text::views(r@) == self.facts() + self.warnings(state@),
    {
        let mut lines: Vec<String> = Vec::new();
        let mut first = line2("ocr: ", on_off(self.enable_ocr));
        first.append(" tesseract=");
        first.append(disp(&self.tesseract));
        text::push_text(&mut lines, first);
        text::push_text(&mut lines, line2("ocr_lang: ", self.ocr_lang.as_str()));
        text::push_text(&mut lines, line2("ffmpeg: ", disp(&self.ffmpeg)));
        text::push_text(&mut lines, line2("ffprobe: ", disp(&self.ffprobe)));
        let mut fifth = line2("transcript: ", on_off(self.enable_transcript));
        fifth.append(" whisper=");
        fifth.append(disp(&self.whisper));
        text::push_text(&mut lines, fifth);
        text::push_text(&mut lines, line2("whisper_model: ", disp(&self.whisper_model)));
        text::push_text(&mut lines, line2("whisper_lang: ", self.whisper_lang.as_str()));
        assert(text::views(lines@) == self.facts());
        if self.enable_ocr && self.tesseract.is_none() {
            text::push_text(
                &mut lines,
                "WARN: OCR enabled but tesseract not found (nix profile install nixpkgs#tesseract)".to_owned(),
            );
        }
        if self.enable_transcript {
            if self.whisper.is_none() {
                text::push_text(
                    &mut lines,
                    "WARN: transcript enabled but whisper-cli not found (nixpkgs#whisper-cpp)".to_owned(),
                );
            }
            if self.whisper_model.is_none() {
                let mut w = line2(
                    "WARN: no whisper model; place ggml-*.bin in ",
                    paths::join(state, "models").as_str(),
                );
                w.append(" or set tools.whisper_model");
                text::push_text(&mut lines, w);
            }
            if self.ffmpeg.is_none() {
                text::push_text(
                    &mut lines,
                    "WARN: ffmpeg missing; video→audio extract needs ffmpeg (nixpkgs#ffmpeg)".to_owned(),
                );
            }
        }
        assert(text::views(lines@) == self.facts() + self.warnings(state@));
        lines
    }

    /// A report on the tools: what is on, where it stands, and what is missing.
    pub fn doctor_lines(&self) -> (r: Vec<String>)
        ensures
            exists|dir: Seq<char>|
                config::names_project(dir) && text::views(r@) == self.facts()
                    + #[trigger] self.warnings(dir),
    {
        let state = config::state_dir();
        self.doctor_lines_in(state.as_str())
    }
}

/// Characters that need no quotes in a shell command.
pub open spec fn shell_plain(c: char) -> bool {
    text::is_alnum(c) || c == '/' || c == '_' || c == '-' || c == '.' || c == '+'
}

/// `s` as one word of a shell command.
pub open spec fn shell_word(s: Seq<char>) -> Seq<char> {
    if forall|i: int| 0 <= i < s.len() ==> shell_plain(#[trigger] s[i]) {
        s
    } else {
        "'"@ + search::replaced(s, "'"@, "'\\''"@) + "'"@
    }
}

/// `s` as one word of a shell command.
pub fn shell_escape(s: &str) -> (r: String)
    ensures
        r@ == shell_word(s@),
{
    let v = text::chars_of(s);
    let mut i: usize = 0;
    while i < v.len()
        invariant
            v@ == s@,
            i <= v@.len(),
            forall|k: int| 0 <= k < i ==> shell_plain(#[trigger] s@[k]),
        decreases v@.len() - i,
    {
        let c = v[i];
        if !(text::is_alnum_char(c) || c == '/' || c == '_' || c == '-' || c == '.' || c == '+') {
            assert(!shell_plain(s@[i as int]));
            proof {
                reveal_strlit("'");
            }
            let mut out = line2("'", search::replace(s, "'", "'\\''").as_str());
            out.append("'");
            return out;
        }
        i = i + 1;
    }
    s.to_owned()
}

/// The shell command that looks a program up.
pub fn which_script(name: &str) -> (r: String)
    ensures
        r@ == "command -v "@ + shell_word(name@),
{
    line2("command -v ", shell_escape(name).as_str())
}

/// What the look-up of a program gave: whether it succeeded, and what it printed.
#[derive(Debug, Clone)]
pub struct LookUp {
    pub success: bool,
    pub stdout: Vec<u8>,
}

/// Where a program stands: the path itself if it is one from the root to a file,
/// else what the look-up printed.
pub open spec fn located(name: Seq<char>, is_file: bool, out: Option<LookUp>) -> Option<Seq<char>> {
    if paths::rooted(name) && is_file {
        Some(name)
    } else {
        match out {
            Some(o) => {
                let s = text::trimmed(bytes::text_of(o.stdout@));
                if o.success && s.len() > 0 {
                    Some(s)
                } else {
                    None
                }
            },
            None => None,
        }
    }
}

/// Locate a program, given whether its name is that of a file and what the look-up
/// gave, if it could be run.
pub fn which(name: &str, is_file: bool, out: &Option<LookUp>) -> (r: Option<String>)
    ensures
        text::opt_view(r) == located(name@, is_file, *out),
{
    proof {
        reveal_strlit("/");
    }
    if text::starts_with(name, "/") && is_file {
        assert(name@.take(1)[0] == '/');
        return Some(name.to_owned());
    }
    assert(paths::rooted(name@) ==> name@.take(1) == "/"@);
    match out {
        Some(o) => {
            if !o.success {
                return None;
            }
            let all = bytes::decode_lossy(o.stdout.as_slice());
            let s = text::trim(all.as_str());
            if s.is_empty() {
                None
            } else {
                Some(s.to_owned())
            }
        },
        None => None,
    }
}

/// What a POSIX shell reads a word as: outside quotes a character stands for
/// itself and `\` for the next one, inside single quotes everything stands for
/// itself. Nothing is read where a quote stays open or a special character stands
/// bare.
pub open spec fn shell_read(w: Seq<char>, quoted: bool) -> Option<Seq<char>>
    decreases w.len(),
{
    if w.len() == 0 {
        if quoted {
            None
        } else {
            Some(Seq::empty())
        }
    } else if w[0] == '\'' {
        shell_read(w.drop_first(), !quoted)
    } else if quoted || shell_plain(w[0]) {
        match shell_read(w.drop_first(), quoted) {
            Some(t) => Some(seq![w[0]] + t),
            None => None,
        }
    } else if w[0] == '\\' && w.len() > 1 {
        match shell_read(w.skip(2), quoted) {
            Some(t) => Some(seq![w[1]] + t),
            None => None,
        }
    } else {
        None
    }
}

proof fn lemma_read_plain(s: Seq<char>)
    requires
        forall|i: int| 0 <= i < s.len() ==> shell_plain(#[trigger] s[i]),
    ensures
        shell_read(s, false) == Some(s),
    decreases s.len(),
{
    if s.len() > 0 {
        assert(shell_plain(s[0]));
        let t = s.drop_first();
        assert forall|i: int| 0 <= i < t.len() implies shell_plain(#[trigger] t[i]) by {
            assert(t[i] == s[i + 1]);
        }
        lemma_read_plain(t);
        assert(seq![s[0]] + t == s);
    } else {
        assert(s == Seq::<char>::empty());
    }
}

/// Inside quotes, text without a quote is read as it stands.
proof fn lemma_read_quoted(s: Seq<char>, rest: Seq<char>)
    requires
        forall|i: int| 0 <= i < s.len() ==> #[trigger] s[i] != '\'',
    ensures
        shell_read(s + rest, true) == match shell_read(rest, true) {
            Some(t) => Some(s + t),
            None => None,
        },
    decreases s.len(),
{
    if s.len() == 0 {
        assert(s + rest == rest);
        if let Some(t) = shell_read(rest, true) {
            assert(s + t == t);
        }
    } else {
        let d = s.drop_first();
        assert forall|i: int| 0 <= i < d.len() implies #[trigger] d[i] != '\'' by {
            assert(d[i] == s[i + 1]);
        }
        lemma_read_quoted(d, rest);
        assert((s + rest).drop_first() == d + rest);
        assert((s + rest)[0] == s[0]);
        if let Some(t) = shell_read(rest, true) {
            assert(seq![s[0]] + (d + t) == s + t);
        }
    }
}

/// The replaced text, read inside quotes that are closed after it.
proof fn lemma_read_replaced(s: Seq<char>)
    ensures
        shell_read(search::replaced(s, "'"@, "'\\''"@) + "'"@, true) == Some(s),
    decreases s.len(),
{
    reveal_strlit("'");
    reveal_strlit("'\\''");
    let q = "'"@;
    let e = "'\\''"@;
    search::lemma_found(s, q);
    match search::found(s, q) {
        Some(i) => {
            let head = s.take(i);
            let tail = s.skip(i + 1);
            assert forall|k: int| 0 <= k < head.len() implies #[trigger] head[k] != '\'' by {
                if s[k] == '\'' {
                    assert(s.subrange(k, k + 1) == q);
                    assert(search::occurs_at(s, q, k));
                }
            }
            let rt = search::replaced(tail, q, e);
            lemma_read_replaced(tail);
            let w = rt + q;
            assert(search::replaced(s, q, e) + q == head + (e + w));
            lemma_read_quoted(head, e + w);
            // The four characters close the quote, give one quote, and open it again.
            let a = e + w;
            assert(a.drop_first() == seq!['\\', '\'', '\''] + w);
            let b = a.drop_first();
            assert(b.skip(2) == seq!['\''] + w);
            let c = b.skip(2);
            assert(c.drop_first() == w);
            assert(shell_read(c, false) == shell_read(w, true));
            assert(shell_read(b, false) == Some(seq!['\''] + tail));
            assert(shell_read(a, true) == Some(seq!['\''] + tail));
            assert(s.subrange(i, i + 1) == q);
            assert(s[i] == s.subrange(i, i + 1)[0]);
            assert(head + (seq!['\''] + tail) == s);
        },
        None => {
            assert forall|k: int| 0 <= k < s.len() implies #[trigger] s[k] != '\'' by {
                if s[k] == '\'' {
                    assert(s.subrange(k, k + 1) == q);
                    assert(search::occurs_at(s, q, k));
                }
            }
            lemma_read_quoted(s, q);
            assert(q.drop_first() == Seq::<char>::empty());
            assert(shell_read(q.drop_first(), false) == Some(Seq::<char>::empty()));
            assert(shell_read(q, true) == Some(Seq::<char>::empty()));
            assert(s + Seq::<char>::empty() == s);
        },
    }
}

/// A shell reads the escaped word back as the text that was escaped, whatever it
/// holds.
pub proof fn shell_word_is_read_back(s: Seq<char>)
    ensures
        shell_read(shell_word(s), false) == Some(s),
{
    if forall|i: int| 0 <= i < s.len() ==> shell_plain(#[trigger] s[i]) {
        lemma_read_plain(s);
    } else {
        reveal_strlit("'");
        lemma_read_replaced(s);
        let inner = search::replaced(s, "'"@, "'\\''"@) + "'"@;
        let w = shell_word(s);
        assert(w == "'"@ + inner);
        assert(w.drop_first() == inner);
    }
}

/// What was found under a name is the first that is recorded for it.
proof fn lemma_looked_up(found: Seq<(String, String)>, name: Seq<char>, i: int)
    requires
        0 <= i < found.len(),
        found[i].0@ == name,
        forall|k: int| 0 <= k < i ==> (#[trigger] found[k]).0@ != name,
    ensures
        looked_up(found, name) == Some(found[i].1@),
    decreases i,
{
    if i > 0 {
        assert(found[0].0@ != name);
        let d = found.drop_first();
        assert(d[i - 1] == found[i]);
        assert forall|k: int| 0 <= k < i - 1 implies (#[trigger] d[k]).0@ != name by {
            assert(d[k] == found[k + 1]);
        }
        lemma_looked_up(d, name, i - 1);
    }
}

/// A program that is set and lies where it is set to lie is used from there, whatever else
/// was found; one that is set but does not lie there is used as it was found under that name.
pub proof fn set_programs_come_first(
    probe: ToolProbe,
    configured: Seq<char>,
    names: Seq<Seq<char>>,
    i: int,
)
    ensures
        text::views(probe.files@).contains(config::expanded(configured, probe.home_view()))
            ==> probe.program(Some(configured), names) == Some(
            config::expanded(configured, probe.home_view()),
        ),
        !text::views(probe.files@).contains(config::expanded(configured, probe.home_view())) && 0
            <= i < probe.found@.len() && probe.found@[i].0@ == configured && (forall|k: int|
            0 <= k < i ==> (#[trigger] probe.found@[k]).0@ != configured) ==> probe.program(
            Some(configured),
            names,
        ) == Some(probe.found@[i].1@),
{
    if 0 <= i < probe.found@.len() && probe.found@[i].0@ == configured && (forall|k: int|
        0 <= k < i ==> (#[trigger] probe.found@[k]).0@ != configured) {
        lemma_looked_up(probe.found@, configured, i);
    }
}

/// Each program that is not set is used as it was found under its own name: OCR as
/// `tesseract`, sound as `ffmpeg`, its description as `ffprobe`, and speech as
/// `whisper-cli`. Switches, languages and limits are what is set.
pub proof fn programs_are_found_under_their_names(
    c: ToolsConfig,
    probe: ToolProbe,
    r: ResolvedTools,
    name: Seq<char>,
    i: int,
)
    requires
        c.is_resolved(probe, r),
        0 <= i < probe.found@.len(),
        probe.found@[i].0@ == name,
        forall|k: int| 0 <= k < i ==> (#[trigger] probe.found@[k]).0@ != name,
    ensures
        name == "tesseract"@ && c.tesseract is None ==> text::opt_view(r.tesseract) == Some(
            probe.found@[i].1@,
        ),
        name == "ffmpeg"@ && c.ffmpeg is None ==> text::opt_view(r.ffmpeg) == Some(
            probe.found@[i].1@,
        ),
        name == "ffprobe"@ && c.ffprobe is None ==> text::opt_view(r.ffprobe) == Some(
            probe.found@[i].1@,
        ),
        name == "whisper-cli"@ && c.whisper is None ==> text::opt_view(r.whisper) == Some(
            probe.found@[i].1@,
        ),
        r.enable_ocr == c.enable_ocr,
        r.enable_transcript == c.enable_transcript,
        r.ocr_lang@ == c.ocr_lang@,
        r.whisper_lang@ == c.whisper_lang@,
        r.whisper_threads == c.whisper_threads,
        r.transcript_max_secs == c.transcript_max_secs,
{
    lemma_looked_up(probe.found@, name, i);
}

/// A program that is neither set nor found is missing.
pub proof fn unknown_programs_are_missing(c: ToolsConfig, probe: ToolProbe, r: ResolvedTools)
    requires
        c.is_resolved(probe, r),
        probe.found@.len() == 0,
    ensures
        c.tesseract is None ==> r.tesseract is None,
        c.ffmpeg is None ==> r.ffmpeg is None,
        c.ffprobe is None ==> r.ffprobe is None,
        c.whisper is None ==> r.whisper is None,
{
    reveal_with_fuel(first_found, 3);
}

/// A model that is set and lies there is used. Else the first of the known names that lies
/// in the directory of models is, and else the first file there that is named like a model.
pub proof fn models_are_chosen_in_order(probe: ToolProbe, configured: Option<Seq<char>>, i: int)
    ensures
        configured matches Some(c) ==> (text::views(probe.files@).contains(
            config::expanded(c, probe.home_view()),
        ) ==> probe.model(configured) == Some(config::expanded(c, probe.home_view()))),
        configured is None && 0 <= i < model_names().len() && text::views(probe.files@).contains(
            paths::under(paths::under(probe.state_dir@, "models"@), model_names()[i]),
        ) && (forall|k: int|
            0 <= k < i ==> !text::views(probe.files@).contains(
                paths::under(
                    paths::under(probe.state_dir@, "models"@),
                    #[trigger] model_names()[k],
                ),
            )) ==> probe.model(configured) == Some(
            paths::under(paths::under(probe.state_dir@, "models"@), model_names()[i]),
        ),
        configured is None && probe.files@.len() == 0 && probe.model_entries@.len() > 0
            && paths::extension_of(probe.model_entries@[0]@) == Some("bin"@) && (paths::name_of(
            probe.model_entries@[0]@,
        ) matches Some(n) && text::begins(n, "ggml-"@)) ==> probe.model(configured) == Some(
            probe.model_entries@[0]@,
        ),
{
    let files = text::views(probe.files@);
    let dir = probe.models_dir();
    let names = model_names();
    if 0 <= i < names.len() && files.contains(paths::under(dir, names[i])) && (forall|k: int|
        0 <= k < i ==> !files.contains(paths::under(dir, #[trigger] model_names()[k]))) {
        lemma_first_existing(files, dir, names, i);
    }
    if probe.files@.len() == 0 {
        lemma_none_existing(files, dir, names);
        if probe.model_entries@.len() > 0 {
            assert(text::views(probe.model_entries@)[0] == probe.model_entries@[0]@);
        }
    }
}

proof fn lemma_first_existing(files: Seq<Seq<char>>, dir: Seq<char>, names: Seq<Seq<char>>, i: int)
    requires
        0 <= i < names.len(),
        files.contains(paths::under(dir, names[i])),
        forall|k: int| 0 <= k < i ==> !files.contains(paths::under(dir, #[trigger] names[k])),
    ensures
        first_existing(files, dir, names) == Some(paths::under(dir, names[i])),
    decreases i,
{
    if i > 0 {
        assert(!files.contains(paths::under(dir, names[0])));
        let d = names.drop_first();
        assert(d[i - 1] == names[i]);
        assert forall|k: int| 0 <= k < i - 1 implies !files.contains(
            paths::under(dir, #[trigger] d[k]),
        ) by {
            assert(d[k] == names[k + 1]);
        }
        lemma_first_existing(files, dir, d, i - 1);
    }
}

proof fn lemma_none_existing(files: Seq<Seq<char>>, dir: Seq<char>, names: Seq<Seq<char>>)
    requires
        files.len() == 0,
    ensures
        first_existing(files, dir, names) is None,
    decreases names.len(),
{
    if names.len() > 0 {
        lemma_none_existing(files, dir, names.drop_first());
    }
}

/// A program is where it is said to be, if it is there; else it is where the shell found it.
pub proof fn programs_are_located(name: Seq<char>, is_file: bool, path: Seq<char>, out: LookUp)
    requires
        out.stdout@ == encode_utf8(path + seq!['\n']),
        path.len() > 0,
        !text::is_white(path[0]),
        !text::is_white(path.last()),
    ensures
        name.len() > 0 && name[0] == '/' && is_file ==> located(name, is_file, Some(out)) == Some(
            name,
        ),
        !(name.len() > 0 && name[0] == '/' && is_file) && out.success ==> located(
            name,
            is_file,
            Some(out),
        ) == Some(path),
        !(name.len() > 0 && name[0] == '/' && is_file) && !out.success ==> located(
            name,
            is_file,
            Some(out),
        ) is None,
        !(name.len() > 0 && name[0] == '/' && is_file) ==> located(name, is_file, None) is None,
{
    let s = path + seq!['\n'];
    bytes::lemma_text_of_encoded(s);
    let w = text::white();
    let n = path.len() as int;
    assert(s[0] == path[0] && s[n - 1] == path.last() && s[n] == '\n');
    assert(w(s[n]));
    text::lemma_stripped(s, w, 0, n);
    assert(s.subrange(0, n) == path);
}

/// The report warns of what is wanted and missing, and of nothing else.
pub proof fn missing_tools_are_warned_of(r: ResolvedTools, state: Seq<char>)
    ensures
        r.warnings(state).len() == (if r.enable_ocr && r.tesseract is None {
            1int
        } else {
            0
        }) + (if r.enable_transcript && r.whisper is None {
            1int
        } else {
            0
        }) + (if r.enable_transcript && r.whisper_model is None {
            1int
        } else {
            0
        }) + (if r.enable_transcript && r.ffmpeg is None {
            1int
        } else {
            0
        }),
        r.tesseract matches Some(t) ==> search::occurs(r.facts()[0], t@),
        r.ffmpeg matches Some(t) ==> search::occurs(r.facts()[2], t@),
        r.ffprobe matches Some(t) ==> search::occurs(r.facts()[3], t@),
        r.whisper matches Some(t) ==> search::occurs(r.facts()[4], t@),
        r.whisper_model matches Some(t) ==> search::occurs(r.facts()[5], t@),
{
    lemma_fact("ocr: "@ + switch_text(r.enable_ocr) + " tesseract="@, r.tesseract);
    lemma_fact("ffmpeg: "@, r.ffmpeg);
    lemma_fact("ffprobe: "@, r.ffprobe);
    lemma_fact("transcript: "@ + switch_text(r.enable_transcript) + " whisper="@, r.whisper);
    lemma_fact("whisper_model: "@, r.whisper_model);
}

proof fn lemma_fact(a: Seq<char>, t: Option<String>)
    ensures
        t matches Some(p) ==> search::occurs(a + path_text(text::opt_view(t)), p@),
{
    if let Some(p) = t {
        search::lemma_occurs_itself(p@);
        search::lemma_occurs_add(a, p@);
    }
}

/// All that the choice of a program or a model can depend on is looked for: every program
/// that is set, under its path and under its name, every program under its usual names, and
/// every model under its known names.
pub proof fn all_that_counts_is_looked_for(c: ToolsConfig, probe: ToolProbe)
    ensures
        c.tesseract matches Some(p) ==> c.wanted_files(probe).contains(
            config::expanded(p@, probe.home_view()),
        ) && c.wanted_programs().contains(p@),
        c.ffmpeg matches Some(p) ==> c.wanted_files(probe).contains(
            config::expanded(p@, probe.home_view()),
        ) && c.wanted_programs().contains(p@),
        c.ffprobe matches Some(p) ==> c.wanted_files(probe).contains(
            config::expanded(p@, probe.home_view()),
        ) && c.wanted_programs().contains(p@),
        c.whisper matches Some(p) ==> c.wanted_files(probe).contains(
            config::expanded(p@, probe.home_view()),
        ) && c.wanted_programs().contains(p@),
        c.whisper_model matches Some(p) ==> c.wanted_files(probe).contains(
            config::expanded(p@, probe.home_view()),
        ),
        c.wanted_programs().contains("tesseract"@),
        c.wanted_programs().contains("ffmpeg"@),
        c.wanted_programs().contains("ffprobe"@),
        c.wanted_programs().contains("whisper-cli"@),
        c.wanted_programs().contains("whisper"@),
        forall|i: int|
            0 <= i < model_names().len() ==> c.wanted_files(probe).contains(
                paths::under(probe.models_dir(), #[trigger] model_names()[i]),
            ),
{
    let h = probe.home_view();
    let f = c.wanted_files(probe);
    let p = c.wanted_programs();
    let f1 = one(sought(c.tesseract, h)).len() as int;
    let f2 = f1 + one(sought(c.ffmpeg, h)).len();
    let f3 = f2 + one(sought(c.ffprobe, h)).len();
    let f4 = f3 + one(sought(c.whisper, h)).len();
    let f5 = f4 + one(sought(c.whisper_model, h)).len();
    let p1 = one(text::opt_view(c.tesseract)).len() as int;
    let p2 = p1 + one(text::opt_view(c.ffmpeg)).len();
    let p3 = p2 + one(text::opt_view(c.ffprobe)).len();
    let p4 = p3 + one(text::opt_view(c.whisper)).len();
    if let Some(x) = c.tesseract {
        assert(f[0] == config::expanded(x@, h));
        assert(p[0] == x@);
    }
    if let Some(x) = c.ffmpeg {
        assert(f[f1] == config::expanded(x@, h));
        assert(p[p1] == x@);
    }
    if let Some(x) = c.ffprobe {
        assert(f[f2] == config::expanded(x@, h));
        assert(p[p2] == x@);
    }
    if let Some(x) = c.whisper {
        assert(f[f3] == config::expanded(x@, h));
        assert(p[p3] == x@);
    }
    if let Some(x) = c.whisper_model {
        assert(f[f4] == config::expanded(x@, h));
    }
    assert(p[p4] == "tesseract"@);
    assert(p[p4 + 1] == "ffmpeg"@);
    assert(p[p4 + 2] == "ffprobe"@);
    assert(p[p4 + 3] == "whisper-cli"@);
    assert(p[p4 + 4] == "whisper"@);
    let m = model_names().map_values(|n: Seq<char>| paths::under(probe.models_dir(), n));
    assert forall|i: int| 0 <= i < model_names().len() implies f.contains(
        paths::under(probe.models_dir(), #[trigger] model_names()[i]),
    ) by {
        assert(m[i] == paths::under(probe.models_dir(), model_names()[i]));
        assert(f[f5 + i] == m[i]);
    }
}

} // verus!
