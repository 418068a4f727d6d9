//! Language work through the Grok CLI session (SuperGrok OAuth): what it is asked,
//! how it is run without an API key, and what is made of its answer.

use vstd::prelude::*;
use vstd::string::*;

use crate::command::{CommandPlan, ProgramOutput};
use crate::config;
use crate::config::GrokSessionConfig;
use crate::extract::{glue, is_blank};
use crate::ids;
use crate::paths;
use crate::search;
use crate::split;
use crate::text;

verus! {

/// Structured result that Grok is asked to return as JSON.
#[derive(Debug, Clone)]
pub struct AiIngestResult {
    pub project_slug: String,
    pub project_title: String,
    pub note_title: String,
    pub summary: String,
    pub entities: Vec<String>,
    /// Obsidian-ready markdown body (with footnotes).
    pub markdown: String,
    pub tags: Vec<String>,
}

/// What an [`AiIngestResult`] holds.
#[verifier::ext_equal]
pub struct AiView {
    pub project_slug: Seq<char>,
    pub project_title: Seq<char>,
    pub note_title: Seq<char>,
    pub summary: Seq<char>,
    pub entities: Seq<Seq<char>>,
    pub markdown: Seq<char>,
    pub tags: Seq<Seq<char>>,
}

impl View for AiIngestResult {
    type V = AiView;

    open spec fn view(&self) -> AiView {
        AiView {
            project_slug: self.project_slug@,
            project_title: self.project_title@,
            note_title: self.note_title@,
            summary: self.summary@,
            entities: text::views(self.entities@),
            markdown: self.markdown@,
            tags: text::views(self.tags@),
        }
    }
}

/// The system prompt that is used where none is given.
pub const DEFAULT_INGEST_PROMPT: &'static str = "You are the research ingest assistant for a local Obsidian vault.\nYou work from a Grok subscription session (not a pay-per-token API key path).\n\nTasks:\n1. Read the source material and metadata.\n2. Choose a project_slug (kebab-case) and project_title. Reuse an existing project when the list is provided and it fits.\n3. Write a clear Obsidian markdown note with:\n   - short summary\n   - key points\n   - entities (people, orgs, products, standards)\n   - footnotes / citations that point at the source URL or file name\n   - wikilinks when you reference related project concepts\n4. Prefer precise technical language. Do not use marketing tone.\n5. If content is thin, still produce a short honest note; put it in project_slug \"inbox\" when no project fits.\n\nOutput: one JSON object only as specified by the user message.\n";

/// The prompt for one item.
pub open spec fn ingest_prompt_text(system: Seq<char>, payload: Seq<char>) -> Seq<char> {
    system + "\n\n---\n\n# Input to process\n\n"@ + payload
        + "\n\n---\n\nReply with a single JSON object only (no prose outside JSON) with keys:\nproject_slug, project_title, note_title, summary, entities (array of strings),\nmarkdown (Obsidian note body with footnotes), tags (array of strings).\nproject_slug must be lowercase kebab-case.\n"@
}

/// The prompt for one item.
pub fn ingest_prompt(system_prompt: &str, user_payload: &str) -> (r: String)
    ensures
        r@ == ingest_prompt_text(system_prompt@, user_payload@),
{
    let mut s = glue(system_prompt, "\n\n---\n\n# Input to process\n\n");
    s.append(user_payload);
    s.append(
        "\n\n---\n\nReply with a single JSON object only (no prose outside JSON) with keys:\nproject_slug, project_title, note_title, summary, entities (array of strings),\nmarkdown (Obsidian note body with footnotes), tags (array of strings).\nproject_slug must be lowercase kebab-case.\n",
    );
    s
}

/// Where prompts are written.
pub open spec fn prompt_file(state: Seq<char>, id: u128) -> Seq<char> {
    paths::under(paths::under(state, "prompts"@), "prompt-"@ + ids::uuid_text(id) + ".md"@)
}

/// The file for a prompt in a state directory.
pub fn prompt_path_in(state: &str, id: u128) -> (r: String)
    ensures
        r@ == prompt_file(state@, id),
{
    let dir = paths::join(state, "prompts");
    let mut name = glue("prompt-", ids::id_text(id).as_str());
    name.append(".md");
    paths::join(dir.as_str(), name.as_str())
}

/// A file of its own for a prompt.
pub fn prompt_path() -> (r: String)
    ensures
        exists|dir: Seq<char>, id: u128|
            config::names_project(dir) && ids::is_random(id) && r@ == #[trigger] prompt_file(
                dir,
                id,
            ),
{
    let state = config::state_dir();
    prompt_path_in(state.as_str(), ids::new_job_id())
}

/// How Grok is run: the command, what is taken from its environment and what is put
/// there, and how long it may take.
#[derive(Debug, Clone)]
pub struct GrokRun {
    pub command: CommandPlan,
    pub env_remove: Vec<String>,
    pub env_set: Vec<(String, String)>,
    pub timeout_secs: u64,
}

/// A flag and its value, if there is one.
pub open spec fn flag_args(flag: Seq<char>, value: Option<Seq<char>>) -> Seq<Seq<char>> {
    match value {
        Some(v) => seq![flag, v],
        None => Seq::empty(),
    }
}

/// The arguments of one run.
pub open spec fn grok_args(grok: GrokSessionConfig, prompt_path: Seq<char>) -> Seq<Seq<char>> {
    seq!["--prompt-file"@, prompt_path, "--output-format"@, "plain"@, "--verbatim"@] + (
    if grok.yolo {
        seq!["--yolo"@]
    } else {
        Seq::empty()
    }) + flag_args("-m"@, text::opt_view(grok.model)) + flag_args(
        "--effort"@,
        text::opt_view(grok.effort),
    ) + text::views(grok.extra_args@)
}

impl GrokRun {
    /// The run does not see the variable `name`.
    pub open spec fn hides(self, name: Seq<char>) -> bool {
        text::views(self.env_remove@).contains(name) && forall|i: int|
            0 <= i < self.env_set@.len() ==> (#[trigger] self.env_set@[i]).0@ != name
    }
}

/// How Grok is run on a prompt file: by the session that is logged in, never with a
/// pay-per-token key.
pub fn grok_run(grok: &GrokSessionConfig, prompt_path: &str) -> (r: GrokRun)
    ensures
        r.command.is(grok.binary@, grok_args(*grok, prompt_path@)),
        r.timeout_secs == grok.timeout_secs,
        r.hides("XAI_API_KEY"@),
        text::views(r.env_remove@) == seq!["XAI_API_KEY"@],
        r.env_set@.len() == 1,
        r.env_set@[0].0@ == "RESEARCH_INGEST_AI"@,
        r.env_set@[0].1@ == "1"@,
{
    let mut args: Vec<String> = Vec::new();
    text::push_text(&mut args, "--prompt-file".to_owned());
    text::push_text(&mut args, prompt_path.to_owned());
    text::push_text(&mut args, "--output-format".to_owned());
    text::push_text(&mut args, "plain".to_owned());
    text::push_text(&mut args, "--verbatim".to_owned());
    if grok.yolo {
        text::push_text(&mut args, "--yolo".to_owned());
    }
    if let Some(m) = &grok.model {
        text::push_text(&mut args, "-m".to_owned());
        text::push_text(&mut args, m.clone());
    }
    if let Some(e) = &grok.effort {
        text::push_text(&mut args, "--effort".to_owned());
        text::push_text(&mut args, e.clone());
    }
    let ghost flags = args@;
    let mut more = text::copy_list(&grok.extra_args);
    let ghost added = more@;
    args.append(&mut more);
    assert(text::views(args@) == text::views(flags) + text::views(added));
    assert(text::views(args@) == grok_args(*grok, prompt_path@));
    let mut env_remove: Vec<String> = Vec::new();
    text::push_text(&mut env_remove, "XAI_API_KEY".to_owned());
    assert(text::views(env_remove@) == seq!["XAI_API_KEY"@]);
    let mut env_set: Vec<(String, String)> = Vec::new();
    env_set.push(("RESEARCH_INGEST_AI".to_owned(), "1".to_owned()));
    proof {
        reveal_strlit("XAI_API_KEY");
        reveal_strlit("RESEARCH_INGEST_AI");
        assert(text::views(env_remove@)[0] == "XAI_API_KEY"@);
        assert("RESEARCH_INGEST_AI"@[0] == 'R');
        assert("XAI_API_KEY"@[0] == 'X');
    }
    GrokRun {
        command: CommandPlan { program: grok.binary.clone(), args },
        env_remove,
        env_set,
        timeout_secs: grok.timeout_secs,
    }
}

/// `s` cut to `n` characters, with an ellipsis where something was cut off.
pub open spec fn shortened(s: Seq<char>, n: int) -> Seq<char> {
    if s.len() > n {
        s.take(n) + "…"@
    } else {
        s
    }
}

/// `s` cut to `n` characters, with an ellipsis where something was cut off.
pub fn truncate(s: &str, n: usize) -> (r: String)
    ensures
        r@ == shortened(s@, n as int),
{
    let mut t = text::clip(s, n);
    if s.unicode_len() > n {
        t.append("…");
    }
    t
}

/// A whole number in decimal.
pub open spec fn signed_text(n: int) -> Seq<char> {
    if n < 0 {
        "-"@ + text::decimal_of((-n) as nat)
    } else {
        text::decimal_of(n as nat)
    }
}

/// An exit status as it is shown.
pub open spec fn code_text(code: Option<i32>) -> Seq<char> {
    match code {
        Some(n) => "Some("@ + signed_text(n as int) + ")"@,
        None => "None"@,
    }
}

fn show_code(code: Option<i32>) -> (r: String)
    ensures
        r@ == code_text(code),
{
    match code {
        Some(n) => {
            let mut s = "Some(".to_owned();
            if n < 0 {
                let m: i64 = -(n as i64);
                let t = glue("-", text::decimal(m as u64).as_str());
                s.append(t.as_str());
            } else {
                s.append(text::decimal(n as u64).as_str());
            }
            s.append(")");
            s
        },
        None => "None".to_owned(),
    }
}

/// Why a run gave no answer.
pub open spec fn run_error(out: ProgramOutput) -> Option<Seq<char>> {
    if !out.success {
        Some(
            "grok exited with status "@ + code_text(out.code) + ": "@ + shortened(
                out.err_text(),
                800,
            ),
        )
    } else if text::trimmed(out.out_text()).len() == 0 {
        Some("grok returned empty stdout; stderr="@ + shortened(out.err_text(), 400))
    } else {
        None
    }
}

/// The answer of a run, or why there is none.
pub fn grok_answer(out: &ProgramOutput) -> (r: Result<String, String>)
    ensures
        match r {
            Ok(s) => run_error(*out) is None && s@ == out.out_text(),
            Err(e) => run_error(*out) == Some(e@),
        },
{
    let stdout = out.printed();
    let stderr = out.complaint();
    if !out.success {
        let mut e = glue("grok exited with status ", show_code(out.code).as_str());
        e.append(": ");
        e.append(truncate(stderr.as_str(), 800).as_str());
        return Err(e);
    }
    if is_blank(stdout.as_str()) {
        return Err(
            glue("grok returned empty stdout; stderr=", truncate(stderr.as_str(), 400).as_str()),
        );
    }
    Ok(stdout)
}

/// `s` without one newline in front.
pub open spec fn without_newline(s: Seq<char>) -> Seq<char> {
    if s.len() > 0 && s[0] == '\n' {
        s.drop_first()
    } else {
        s
    }
}

/// What stands in the first fence that is marked as JSON, if it is closed.
pub open spec fn fenced_json(raw: Seq<char>) -> Option<Seq<char>> {
    match search::found(raw, "```json"@) {
        Some(i) => {
            let after = without_newline(raw.skip(i + 7));
            match search::found(after, "```"@) {
                Some(e) => Some(text::trimmed(after.take(e))),
                None => None,
            }
        },
        None => None,
    }
}

/// What stands from the first opening brace to the last closing one.
pub open spec fn braced(raw: Seq<char>) -> Option<Seq<char>> {
    let i = split::first_of(raw, '{');
    if i < raw.len() {
        match search::last_of(raw, '}') {
            Some(j) => if i < j {
                Some(raw.subrange(i, j + 1))
            } else {
                None
            },
            None => None,
        }
    } else {
        None
    }
}

/// The JSON in an answer: what stands in a fence, or else between braces.
pub open spec fn json_in(raw: Seq<char>) -> Option<Seq<char>> {
    if fenced_json(raw) is Some {
        fenced_json(raw)
    } else {
        braced(raw)
    }
}

/// What stands in the first fence that is marked as JSON, if it is closed.
fn fence(raw: &str) -> (r: Option<String>)
    ensures
        text::opt_view(r) == fenced_json(raw@),
{
    let n: usize = raw.unicode_len();
    proof {
        reveal_strlit("```json");
    }
    match search::find(raw, "```json") {
        Some(i) => {
            assert(raw@.subrange(i + 7, n as int) == raw@.skip(i + 7));
            let rest = raw.substring_char(i + 7, n);
            let v = text::chars_of(rest);
            let m: usize = v.len();
            let after = if m > 0 && v[0] == '\n' {
                assert(rest@.subrange(1, m as int) == rest@.drop_first());
                rest.substring_char(1, m)
            } else {
                rest
            };
            match search::find(after, "```") {
                Some(e) => {
                    assert(after@.subrange(0, e as int) == after@.take(e as int));
                    Some(text::trim(after.substring_char(0, e)).to_owned())
                },
                None => None,
            }
        },
        None => None,
    }
}

/// The JSON in an answer, if it seems to hold any.
pub fn extract_json_block(raw: &str) -> (r: Option<String>)
    ensures
        text::opt_view(r) == json_in(raw@),
{
    if let Some(j) = fence(raw) {
        return Some(j);
    }
    let v = text::chars_of(raw);
    let n: usize = v.len();
    let mut i: usize = 0;
    while i < n && v[i] != '{'
        invariant
            v@ == raw@,
            n == v@.len(),
            i <= n,
            forall|k: int| 0 <= k < i ==> #[trigger] raw@[k] != '{',
        decreases n - i,
    {
        i = i + 1;
    }
    proof {
        split::lemma_first_of_is(raw@, '{', i as int);
    }
    if i == n {
        return None;
    }
    match search::find_last(raw, '}') {
        Some(j) => {
            if j > i {
                Some(text::string_between(&v, i, j + 1))
            } else {
                None
            }
        },
        None => None,
    }
}

/// The first line that has something besides white space.
pub open spec fn first_said(lines: Seq<Seq<char>>) -> Option<Seq<char>>
    decreases lines.len(),
{
    if lines.len() == 0 {
        None
    } else if text::trimmed(lines[0]).len() > 0 {
        Some(lines[0])
    } else {
        first_said(lines.drop_first())
    }
}

/// The beginning of the first line that has something besides white space.
pub open spec fn first_line_text(s: Seq<char>) -> Seq<char> {
    text::clipped(
        match first_said(split::lines_of(s)) {
            Some(l) => l,
            None => "summary"@,
        },
        200,
    )
}

/// The beginning of the first line that has something besides white space.
pub fn first_line(s: &str) -> (r: String)
    ensures
        r@ == first_line_text(s@),
{
    let lines = split::lines(s);
    let ghost all = text::views(lines@);
    let mut i: usize = 0;
    assert(all.skip(0) == all);
    while i < lines.len()
        invariant
            i <= lines@.len(),
            all == text::views(lines@),
            all == split::lines_of(s@),
            first_said(all) == first_said(all.skip(i as int)),
        decreases lines@.len() - i,
    {
        let ghost rest = all.skip(i as int);
        assert(rest[0] == lines@[i as int]@);
        assert(rest.drop_first() == all.skip(i + 1));
        if !is_blank(lines[i].as_str()) {
            return text::clip(lines[i].as_str(), 200);
        }
        i = i + 1;
    }
    text::clip("summary", 200)
}

/// How an answer is read.
#[derive(Debug, Clone)]
pub enum Reading {
    /// As JSON; the second text says what was read if it fails.
    Json(String, String),
    /// As the body of a note in the inbox.
    Wrapped(AiIngestResult),
}

/// What a [`Reading`] holds.
pub enum ReadingView {
    Json(Seq<char>, Seq<char>),
    Wrapped(AiView),
}

impl View for Reading {
    type V = ReadingView;

    open spec fn view(&self) -> ReadingView {
        match *self {
            Reading::Json(j, context) => ReadingView::Json(j@, context@),
            Reading::Wrapped(a) => ReadingView::Wrapped(a@),
        }
    }
}

/// How an answer is read.
pub open spec fn reading_of(raw: Seq<char>) -> ReadingView {
    match json_in(raw) {
        Some(j) => ReadingView::Json(j, "parse AI JSON: "@ + shortened(j, 200)),
        None => if text::begins(text::trimmed(raw), "{"@) {
            ReadingView::Json(text::trimmed(raw), "parse AI JSON root"@)
        } else {
            ReadingView::Wrapped(wrapped(raw))
        },
    }
}

/// The note in the inbox that holds an answer without JSON.
pub open spec fn wrapped(raw: Seq<char>) -> AiView {
    AiView {
        project_slug: "inbox"@,
        project_title: "Inbox"@,
        note_title: "Ingest note"@,
        summary: first_line_text(raw),
        entities: Seq::empty(),
        markdown: raw,
        tags: seq!["ingest"@],
    }
}

/// How an answer is read: as the JSON in it, as JSON altogether where it starts like
/// some, or else as the body of a note.
pub fn parse_ai_result(raw: &str) -> (r: Reading)
    ensures
        match r {
            Reading::Json(j, context) => if json_in(raw@) is Some {
                json_in(raw@) == Some(j@) && context@ == "parse AI JSON: "@ + shortened(j@, 200)
            } else {
                text::begins(text::trimmed(raw@), "{"@) && j@ == text::trimmed(raw@) && context@
                    == "parse AI JSON root"@
            },
            Reading::Wrapped(a) => json_in(raw@) is None && !text::begins(
                text::trimmed(raw@),
                "{"@,
            ) && a@ == wrapped(raw@),
        },
        r@ == reading_of(raw@),
{
    if let Some(j) = extract_json_block(raw) {
        let context = glue("parse AI JSON: ", truncate(j.as_str(), 200).as_str());
        return Reading::Json(j, context);
    }
    let trimmed = text::trim(raw);
    if text::starts_with(trimmed, "{") {
        return Reading::Json(trimmed.to_owned(), "parse AI JSON root".to_owned());
    }
    let mut tags: Vec<String> = Vec::new();
    text::push_text(&mut tags, "ingest".to_owned());
    let entities: Vec<String> = Vec::new();
    assert(text::views(tags@) == seq!["ingest"@]);
    assert(text::views(entities@) == Seq::<Seq<char>>::empty());
    Reading::Wrapped(
        AiIngestResult {
            project_slug: "inbox".to_owned(),
            project_title: "Inbox".to_owned(),
            note_title: "Ingest note".to_owned(),
            summary: first_line(raw),
            entities,
            markdown: raw.to_owned(),
            tags,
        },
    )
}

/// What to do after an answer was read.
#[derive(Debug, Clone)]
pub enum Verdict {
    Accept(AiIngestResult),
    /// Ask once more.
    Retry,
    GiveUp(String),
}

/// The judgement on an answer. `asked` counts how often Grok has been asked so far.
pub open spec fn judged(
    asked: u32,
    max_retries: u32,
    parsed: Result<AiIngestResult, String>,
) -> Verdict {
    match parsed {
        Ok(a) => Verdict::Accept(a),
        Err(e) => if asked <= max_retries {
            Verdict::Retry
        } else {
            Verdict::GiveUp(e)
        },
    }
}

/// Judges an answer: one that failed validation is asked for again as long as there
/// are retries left. `asked` counts how often Grok has been asked so far.
pub fn judge_answer(asked: u32, max_retries: u32, parsed: Result<AiIngestResult, String>) -> (r:
    Verdict)
    requires
        asked > 0,
    ensures
        match parsed {
            Ok(a) => r == Verdict::Accept(a),
            Err(e) => if asked <= max_retries {
                r is Retry
            } else {
                r == Verdict::GiveUp(e)
            },
        },
        r == judged(asked, max_retries, parsed),
{
    match parsed {
        Ok(a) => Verdict::Accept(a),
        Err(e) => {
            if asked <= max_retries {
                Verdict::Retry
            } else {
                Verdict::GiveUp(e)
            }
        },
    }
}

/// The places besides the configured one where a system prompt is looked for.
pub fn prompt_candidates(config_dir: &str) -> (r: Vec<String>)
    ensures
        text::views(r@) == seq![
            "prompts/ingest_system.md"@,
            paths::under(config_dir@, "ingest_system.md"@),
        ],
{
    let mut v: Vec<String> = Vec::new();
    text::push_text(&mut v, "prompts/ingest_system.md".to_owned());
    text::push_text(&mut v, paths::join(config_dir, "ingest_system.md"));
    assert(text::views(v@) == seq![
        "prompts/ingest_system.md"@,
        paths::under(config_dir@, "ingest_system.md"@),
    ]);
    v
}

/// The first text that could be read, or the default.
pub open spec fn chosen_prompt(read: Seq<Option<String>>) -> Seq<char>
    decreases read.len(),
{
    if read.len() == 0 {
        DEFAULT_INGEST_PROMPT@
    } else {
        match read[0] {
            Some(t) => t@,
            None => chosen_prompt(read.drop_first()),
        }
    }
}

/// The system prompt: the first that could be read, in the order in which they were
/// tried, or the default.
pub fn load_system_prompt(read: &Vec<Option<String>>) -> (r: String)
    ensures
        r@ == chosen_prompt(read@),
{
    let mut i: usize = 0;
    assert(read@.skip(0) == read@);
    while i < read.len()
        invariant
            i <= read@.len(),
            chosen_prompt(read@) == chosen_prompt(read@.skip(i as int)),
        decreases read@.len() - i,
    {
        let ghost rest = read@.skip(i as int);
        assert(rest[0] == read@[i as int]);
        assert(rest.drop_first() == read@.skip(i + 1));
        if let Some(t) = &read[i] {
            return t.clone();
        }
        i = i + 1;
    }
    DEFAULT_INGEST_PROMPT.to_owned()
}

/// JSON in a fence is found whatever stands around the fence, as long as no earlier
/// fence is opened and the JSON closes none.
pub proof fn fenced_answers_are_found(before: Seq<char>, json: Seq<char>, after: Seq<char>)
    requires
        search::found(before + "```json\n"@ + json + "```"@ + after, "```json"@) == Some(
            before.len() as int,
        ),
        search::found(json + "```"@ + after, "```"@) == Some(json.len() as int),
    ensures
        json_in(before + "```json\n"@ + json + "```"@ + after) == Some(text::trimmed(json)),
{
    reveal_strlit("```json\n");
    reveal_strlit("```");
    let raw = before + "```json\n"@ + json + "```"@ + after;
    let i = before.len() as int;
    let rest = raw.skip(i + 7);
    assert(rest == seq!['\n'] + (json + "```"@ + after));
    assert(without_newline(rest) == json + "```"@ + after);
    assert((json + "```"@ + after).take(json.len() as int) == json);
}

/// No fence that is marked as JSON is opened and closed.
pub open spec fn unfenced(raw: Seq<char>) -> bool {
    match search::found(raw, "```json"@) {
        Some(i) => !search::occurs(raw.skip(i + 7), "```"@),
        None => true,
    }
}

proof fn lemma_unfenced(raw: Seq<char>)
    requires
        unfenced(raw),
    ensures
        fenced_json(raw) is None,
{
    if let Some(i) = search::found(raw, "```json"@) {
        let rest = raw.skip(i + 7);
        let after = without_newline(rest);
        search::lemma_found(after, "```"@);
        if search::occurs(after, "```"@) {
            let none = Seq::<char>::empty();
            if rest.len() > 0 && rest[0] == '\n' {
                search::lemma_occurs_within(seq!['\n'], after, none, "```"@);
                assert(seq!['\n'] + after + none == rest);
            }
        }
    }
}

/// An answer that is one JSON object, with whatever prose around it, is handed on to be
/// read as just that object, of whatever length: from its opening to its closing brace,
/// as long as no brace opens before it, none closes behind it, and no fence that is marked
/// as JSON is opened and closed.
pub proof fn bare_answers_are_found(before: Seq<char>, inside: Seq<char>, after: Seq<char>)
    requires
        forall|i: int| 0 <= i < before.len() ==> #[trigger] before[i] != '{',
        forall|i: int| 0 <= i < after.len() ==> #[trigger] after[i] != '}',
        unfenced(before + seq!['{'] + inside + seq!['}'] + after),
    ensures
        json_in(before + seq!['{'] + inside + seq!['}'] + after) == Some(
            seq!['{'] + inside + seq!['}'],
        ),
{
    let raw = before + seq!['{'] + inside + seq!['}'] + after;
    lemma_unfenced(raw);
    let i = before.len() as int;
    let j = i + 1 + inside.len();
    assert forall|k: int| 0 <= k < i implies #[trigger] raw[k] != '{' by {
        assert(raw[k] == before[k]);
    }
    assert(raw[i] == '{');
    split::lemma_first_of_is(raw, '{', i);
    assert forall|k: int| j < k < raw.len() implies #[trigger] raw[k] != '}' by {
        assert(raw[k] == after[k - j - 1]);
    }
    assert(raw[j] == '}');
    search::lemma_last_of_is(raw, '}', j);
    assert(raw.subrange(i, j + 1) == seq!['{'] + inside + seq!['}']);
}

/// JSON in a fence is found also where it starts right behind the mark of the fence.
pub proof fn tightly_fenced_answers_are_found(before: Seq<char>, json: Seq<char>, after: Seq<char>)
    requires
        json.len() > 0,
        json[0] != '\n',
        search::found(before + "```json"@ + json + "```"@ + after, "```json"@) == Some(
            before.len() as int,
        ),
        search::found(json + "```"@ + after, "```"@) == Some(json.len() as int),
    ensures
        json_in(before + "```json"@ + json + "```"@ + after) == Some(text::trimmed(json)),
{
    reveal_strlit("```json");
    let raw = before + "```json"@ + json + "```"@ + after;
    let rest = raw.skip(before.len() as int + 7);
    assert(rest == json + "```"@ + after);
    assert(rest[0] == json[0]);
    assert(rest.take(json.len() as int) == json);
}

/// Where no brace closes behind one that opens, and no fence is closed, there is no JSON in
/// the answer.
proof fn lemma_no_json(raw: Seq<char>)
    requires
        unfenced(raw),
        forall|i: int, j: int|
            0 <= i < j < raw.len() ==> !(#[trigger] raw[i] == '{' && #[trigger] raw[j] == '}'),
    ensures
        json_in(raw) is None,
{
    lemma_unfenced(raw);
    let i = split::first_of(raw, '{');
    split::lemma_first_of(raw, '{');
    if i < raw.len() {
        if let Some(j) = search::last_of(raw, '}') {
            lemma_last_is(raw, '}');
            if i < j {
                assert(raw[i] == '{' && raw[j] == '}');
            }
        }
    }
}

proof fn lemma_last_is(s: Seq<char>, x: char)
    ensures
        search::last_of(s, x) matches Some(i) ==> 0 <= i < s.len() && s[i] == x,
    decreases s.len(),
{
    if s.len() > 0 && s.last() != x {
        lemma_last_is(s.drop_last(), x);
    }
}

/// An answer that is one JSON object is read as that object, whole; where the reading fails,
/// its beginning is shown.
pub proof fn objects_are_read_as_json(before: Seq<char>, inside: Seq<char>, after: Seq<char>)
    requires
        forall|i: int| 0 <= i < before.len() ==> #[trigger] before[i] != '{',
        forall|i: int| 0 <= i < after.len() ==> #[trigger] after[i] != '}',
        unfenced(before + seq!['{'] + inside + seq!['}'] + after),
    ensures
        reading_of(before + seq!['{'] + inside + seq!['}'] + after) matches ReadingView::Json(
            j,
            context,
        ) && j == seq!['{'] + inside + seq!['}'] && (j.len() <= 200 ==> search::occurs(context, j)),
{
    bare_answers_are_found(before, inside, after);
    let j = seq!['{'] + inside + seq!['}'];
    search::lemma_occurs_itself(shortened(j, 200));
    search::lemma_occurs_add("parse AI JSON: "@, shortened(j, 200));
}

/// An answer without JSON is kept. One that starts like an object is handed on to be read,
/// whole but for the white space around it. All of any other becomes the body of a note in
/// the inbox, marked as ingested.
pub proof fn free_text_goes_to_the_inbox(raw: Seq<char>)
    requires
        unfenced(raw),
        forall|i: int, j: int|
            0 <= i < j < raw.len() ==> !(#[trigger] raw[i] == '{' && #[trigger] raw[j] == '}'),
    ensures
        match reading_of(raw) {
            ReadingView::Json(j, _) => j == text::trimmed(raw) && j.len() > 0 && j[0] == '{',
            ReadingView::Wrapped(a) => !(text::trimmed(raw).len() > 0 && text::trimmed(raw)[0] == '{')
                && a.markdown == raw && a.project_slug == "inbox"@ && a.project_title == "Inbox"@
                && a.note_title == "Ingest note"@ && a.entities.len() == 0 && a.tags
                == seq!["ingest"@] && a.summary.len() <= 200,
        },
{
    reveal_strlit("{");
    lemma_no_json(raw);
    let t = text::trimmed(raw);
    if t.len() > 0 {
        assert(t.take(1)[0] == t[0]);
        if t[0] == '{' {
            assert(t.take(1) == "{"@);
        }
    }
}

/// The summary of such a note is the first line of the answer that is not blank, or its
/// first two hundred characters.
pub proof fn summaries_are_first_lines(
    s: Seq<char>,
    before: Seq<Seq<char>>,
    line: Seq<char>,
    after: Seq<Seq<char>>,
)
    requires
        split::lines_of(s) == before + seq![line] + after,
        !text::blank(line),
        forall|i: int| 0 <= i < before.len() ==> text::blank(#[trigger] before[i]),
    ensures
        line.len() <= 200 ==> first_line_text(s) == line,
        line.len() > 200 ==> first_line_text(s) == line.take(200),
{
    lemma_first_said(before, line, after);
}

proof fn lemma_first_said(before: Seq<Seq<char>>, line: Seq<char>, after: Seq<Seq<char>>)
    requires
        !text::blank(line),
        forall|i: int| 0 <= i < before.len() ==> text::blank(#[trigger] before[i]),
    ensures
        first_said(before + seq![line] + after) == Some(line),
    decreases before.len(),
{
    let all = before + seq![line] + after;
    if before.len() > 0 {
        let d = before.drop_first();
        assert forall|i: int| 0 <= i < d.len() implies text::blank(#[trigger] d[i]) by {
            assert(d[i] == before[i + 1]);
        }
        lemma_first_said(d, line, after);
        assert(all.drop_first() == d + seq![line] + after);
        assert(all[0] == before[0]);
        text::trimming_takes_white_space_only(before[0]);
    } else {
        assert(all[0] == line);
        text::trimming_takes_white_space_only(line);
    }
}

/// An answer that can be read is accepted as it is. One that cannot is asked for again until
/// the retries are used up, and then given up with the reason.
pub proof fn answers_are_asked_for_again(
    asked: u32,
    max_retries: u32,
    answer: AiIngestResult,
    reason: String,
)
    requires
        asked > 0,
    ensures
        judged(asked, max_retries, Ok(answer)) == Verdict::Accept(answer),
        max_retries == 0 ==> judged(asked, max_retries, Err(reason)) == Verdict::GiveUp(reason),
        asked == max_retries ==> judged(asked, max_retries, Err(reason)) is Retry,
        asked > max_retries ==> judged(asked, max_retries, Err(reason)) == Verdict::GiveUp(reason),
        asked < max_retries ==> judged(asked, max_retries, Err(reason)) is Retry,
{
}

/// The prompt starts with the system prompt, and holds what is to be processed, whole.
pub proof fn prompts_hold_the_payload(system: Seq<char>, payload: Seq<char>)
    ensures
        text::begins(ingest_prompt_text(system, payload), system),
        search::occurs(
            ingest_prompt_text(system, payload),
            "# Input to process\n\n"@ + payload,
        ),
{
    let p = ingest_prompt_text(system, payload);
    let mid = "\n\n---\n\n# Input to process\n\n"@;
    assert(mid == "\n\n---\n\n"@ + "# Input to process\n\n"@) by {
        reveal_strlit("\n\n---\n\n# Input to process\n\n");
        reveal_strlit("\n\n---\n\n");
        reveal_strlit("# Input to process\n\n");
    }
    let end = "\n\n---\n\nReply with a single JSON object only (no prose outside JSON) with keys:\nproject_slug, project_title, note_title, summary, entities (array of strings),\nmarkdown (Obsidian note body with footnotes), tags (array of strings).\nproject_slug must be lowercase kebab-case.\n"@;
    assert(system.take(system.len() as int) == system);
    text::lemma_begins_add(system, mid);
    text::lemma_begins_add(system + mid, payload);
    text::lemma_begins_add(system + mid + payload, end);
    let a = "\n\n---\n\n"@;
    let b = "# Input to process\n\n"@;
    search::lemma_occurs_end(a, b, payload);
    assert(system + mid + payload == system + (a + b + payload));
    search::lemma_occurs_add(system, a + b + payload);
    search::lemma_occurs_add(system + mid + payload, end);
}

/// A run that succeeds and prints something gives an answer; one that fails gives the status
/// and what the program complained of, and one that prints nothing gives its complaint.
pub proof fn runs_answer_or_complain(out: ProgramOutput)
    ensures
        out.success && !text::blank(out.out_text()) ==> run_error(out) is None,
        !out.success ==> run_error(out) is Some && search::occurs(
            run_error(out).unwrap(),
            code_text(out.code),
        ) && (out.err_text().len() <= 800 ==> search::occurs(
            run_error(out).unwrap(),
            out.err_text(),
        )),
        out.success && text::blank(out.out_text()) ==> run_error(out) is Some && (
        out.err_text().len() <= 400 ==> search::occurs(run_error(out).unwrap(), out.err_text())),
{
    text::trimming_takes_white_space_only(out.out_text());
    if !out.success {
        let a = "grok exited with status "@;
        let c = code_text(out.code);
        let e = shortened(out.err_text(), 800);
        search::lemma_occurs_itself(c);
        search::lemma_occurs_itself(e);
        search::lemma_occurs_add(a, c);
        search::lemma_occurs_add(a + c, ": "@);
        search::lemma_occurs_add(a + c + ": "@, e);
    } else {
        let e = shortened(out.err_text(), 400);
        search::lemma_occurs_itself(e);
        search::lemma_occurs_add("grok returned empty stdout; stderr="@, e);
    }
}

/// Short text is shown whole; of longer text the beginning is shown, with an ellipsis.
pub proof fn shortening_keeps_the_beginning(s: Seq<char>, n: int)
    requires
        0 <= n,
    ensures
        s.len() <= n ==> shortened(s, n) == s,
        s.len() > n ==> text::begins(shortened(s, n), s.take(n)) && shortened(s, n).len() == n + 1,
{
    reveal_strlit("…");
    if s.len() > n {
        assert(shortened(s, n).take(n) == s.take(n));
    }
}

/// Grok reads the prompt from its file and prints plainly; the model and the effort are
/// handed on where they are set, and what the settings add comes last.
pub proof fn grok_is_run_as_set(grok: GrokSessionConfig, prompt: Seq<char>)
    ensures
        ({
            let a = grok_args(grok, prompt);
            let extra = text::views(grok.extra_args@);
            &&& a[0] == "--prompt-file"@ && a[1] == prompt
            &&& a.contains("plain"@)
            &&& grok.yolo ==> a.contains("--yolo"@)
            &&& grok.model matches Some(m) ==> exists|i: int|
                0 <= i && i + 1 < a.len() && #[trigger] a[i] == "-m"@ && a[i + 1] == m@
            &&& grok.effort matches Some(e) ==> exists|i: int|
                0 <= i && i + 1 < a.len() && #[trigger] a[i] == "--effort"@ && a[i + 1] == e@
            &&& a.len() >= extra.len() && a.skip(a.len() - extra.len()) == extra
        }),
{
    let a = grok_args(grok, prompt);
    let extra = text::views(grok.extra_args@);
    let base = seq!["--prompt-file"@, prompt, "--output-format"@, "plain"@, "--verbatim"@];
    let yolo = if grok.yolo {
        seq!["--yolo"@]
    } else {
        Seq::empty()
    };
    let model = flag_args("-m"@, text::opt_view(grok.model));
    let effort = flag_args("--effort"@, text::opt_view(grok.effort));
    assert(a[3] == "plain"@);
    if grok.yolo {
        assert(a[5] == "--yolo"@);
    }
    let m = 5 + yolo.len() as int;
    if grok.model is Some {
        assert(a[m] == model[0] && a[m + 1] == model[1]);
    }
    let e = m + model.len();
    if grok.effort is Some {
        assert(a[e] == effort[0] && a[e + 1] == effort[1]);
    }
    assert(a.skip(a.len() - extra.len()) == extra);
}

/// The system prompt is the first that could be read, in the order in which they were tried.
pub proof fn the_first_prompt_counts(read: Seq<Option<String>>, i: int)
    requires
        0 <= i < read.len(),
        read[i] is Some,
        forall|k: int| 0 <= k < i ==> (#[trigger] read[k]) is None,
    ensures
        chosen_prompt(read) == read[i].unwrap()@,
    decreases i,
{
    if i > 0 {
        assert(read[0] is None);
        let d = read.drop_first();
        assert forall|k: int| 0 <= k < i - 1 implies (#[trigger] d[k]) is None by {
            assert(d[k] == read[k + 1]);
        }
        assert(d[i - 1] == read[i]);
        the_first_prompt_counts(d, i - 1);
    }
}

/// Each prompt has a file of its own among the prompts.
pub proof fn prompts_are_apart(state: Seq<char>, a: u128, b: u128)
    requires
        prompt_file(state, a) == prompt_file(state, b),
    ensures
        a == b,
        text::begins(prompt_file(state, a), paths::under(state, "prompts"@)),
        text::ends(prompt_file(state, a), "/prompt-"@ + ids::uuid_text(a) + ".md"@),
{
    reveal_strlit(".md");
    reveal_strlit("prompt-");
    reveal_strlit("/prompt-");
    reveal_strlit("prompts");
    let dir = paths::under(state, "prompts"@);
    let x = "prompt-"@ + ids::uuid_text(a) + ".md"@;
    let y = "prompt-"@ + ids::uuid_text(b) + ".md"@;
    ids::lemma_uuid_len(a);
    ids::lemma_uuid_len(b);
    assert(x[0] == 'p' && y[0] == 'p');
    assert(dir.len() > 0 && dir.last() == 's');
    assert("/prompt-"@ == seq!['/'] + "prompt-"@);
    let p = prompt_file(state, a);
    assert(p == dir + seq!['/'] + x);
    lemma_middles(dir + seq!['/'], "prompt-"@, ids::uuid_text(a), ids::uuid_text(b), ".md"@);
    ids::uuid_text_identifies(a, b);
    assert(p.take(dir.len() as int) == dir);
    let z = "/prompt-"@ + ids::uuid_text(a) + ".md"@;
    assert(p == dir + z);
    assert(p.skip(p.len() - z.len()) == z);
}

proof fn lemma_middles(h: Seq<char>, s: Seq<char>, a: Seq<char>, b: Seq<char>, t: Seq<char>)
    requires
        h + (s + a + t) == h + (s + b + t),
        a.len() == b.len(),
    ensures
        a == b,
{
    let x = h + (s + a + t);
    let y = h + (s + b + t);
    let i = (h.len() + s.len()) as int;
    assert(x.subrange(i, i + a.len()) == a);
    assert(y.subrange(i, i + b.len()) == b);
}

} // verus!
