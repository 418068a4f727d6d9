//! How one job is worked off: a machine that is told what was read and answers what
//! to store, write and ask next.

use vstd::prelude::*;
use vstd::string::*;

use crate::bytes;
use crate::clock;
use crate::clock::Timestamp;
use crate::config::{AiBackend, Config};
use crate::extract;
use crate::extract::{glue, heuristic_project, truncate_chars, Extracted, ExtractedView};
use crate::grok::{AiIngestResult, AiView};
use crate::hash;
use crate::hash::file_sha256;
use crate::ids;
use crate::job;
use crate::job::{IngestJob, JobStatus, JobView};
use crate::json;
use crate::notes;
use crate::paths;
use crate::queue;
use crate::queue::{JobQueue, Malformed};
use crate::search;
use crate::slug;
use crate::slug::slugify;
use crate::split;
use crate::text;
use crate::vault;
use crate::vault::{ProjectPlan, VaultPaths};

verus! {

/// What was read for a job.
#[derive(Debug, Clone)]
pub enum Event {
    /// The source file is gone.
    Missing,
    /// The bytes of the source file, and the list of hashes that were seen.
    Source(Vec<u8>, Vec<u8>),
    Extracted(Extracted),
    /// The slugs of the projects in the vault.
    Projects(Vec<String>),
    /// What Grok returned, if it did.
    Answer(Option<AiIngestResult>),
    /// Everything asked for was written.
    Written,
}

/// What an [`Event`] holds.
pub enum EventView {
    Missing,
    Source(Seq<u8>, Seq<u8>),
    Extracted(ExtractedView),
    Projects(Seq<Seq<char>>),
    Answer(Option<AiView>),
    Written,
}

impl View for Event {
    type V = EventView;

    open spec fn view(&self) -> EventView {
        match *self {
            Event::Missing => EventView::Missing,
            Event::Source(data, seen) => EventView::Source(data@, seen@),
            Event::Extracted(ex) => EventView::Extracted(ex@),
            Event::Projects(p) => EventView::Projects(text::views(p@)),
            Event::Answer(a) => EventView::Answer(
                match a {
                    Some(a) => Some(a@),
                    None => None,
                },
            ),
            Event::Written => EventView::Written,
        }
    }
}

/// One thing to do, in the order given. Only moving a file may fail without harm.
#[derive(Debug, Clone)]
pub enum Effect {
    /// Store the job as it stands.
    Put,
    /// Write a file: path and contents.
    WriteFile(String, String),
    /// See to it that a project exists and is listed.
    Project(ProjectPlan),
    /// List a note among the sources of its project: the note of the project, the file
    /// of the note, its title and its summary.
    AppendSource(String, String, String, String),
    /// Move a file: from and to.
    Move(String, String),
    /// Record a hash as seen.
    Mark(String),
}

/// What an [`Effect`] holds.
pub enum EffectView {
    Put,
    WriteFile(Seq<char>, Seq<char>),
    /// Directory, note, contents of the note, and line in the index.
    Project(Seq<char>, Seq<char>, Seq<char>, Seq<char>),
    AppendSource(Seq<char>, Seq<char>, Seq<char>, Seq<char>),
    Move(Seq<char>, Seq<char>),
    Mark(Seq<char>),
}

impl View for Effect {
    type V = EffectView;

    open spec fn view(&self) -> EffectView {
        match *self {
            Effect::Put => EffectView::Put,
            Effect::WriteFile(p, b) => EffectView::WriteFile(p@, b@),
            Effect::Project(p) => EffectView::Project(p.dir@, p.note_path@, p.note_body@, p.link@),
            Effect::AppendSource(m, f, t, s) => EffectView::AppendSource(m@, f@, t@, s@),
            Effect::Move(a, b) => EffectView::Move(a@, b@),
            Effect::Mark(h) => EffectView::Mark(h@),
        }
    }
}

/// What to find out next.
#[derive(Debug, Clone)]
pub enum Ask {
    Extract,
    Projects,
    /// What Grok makes of this payload.
    Ai(String),
    /// Whether everything was written.
    Written,
    /// Nothing: the job is over.
    Nothing,
}

/// What an [`Ask`] holds.
pub enum AskView {
    Extract,
    Projects,
    Ai(Seq<char>),
    Written,
    Nothing,
}

impl View for Ask {
    type V = AskView;

    open spec fn view(&self) -> AskView {
        match *self {
            Ask::Extract => AskView::Extract,
            Ask::Projects => AskView::Projects,
            Ask::Ai(p) => AskView::Ai(p@),
            Ask::Written => AskView::Written,
            Ask::Nothing => AskView::Nothing,
        }
    }
}

/// What to do, and what to find out after that.
#[derive(Debug, Clone)]
pub struct Turn {
    pub effects: Vec<Effect>,
    pub ask: Ask,
}

/// The effects of a turn.
pub open spec fn effects_view(v: Seq<Effect>) -> Seq<EffectView> {
    v.map_values(|e: Effect| e@)
}

/// How far a job has come, with what is needed to go on.
#[derive(Debug, Clone)]
pub enum Stage {
    Start,
    Extract,
    Route(Extracted),
    Ask(Extracted),
    /// The slug of the project, the path of the note, and its title.
    Write(String, String, String),
    Over,
}

/// What a [`Stage`] holds.
pub enum StageView {
    Start,
    Extract,
    Route(ExtractedView),
    Ask(ExtractedView),
    Write(Seq<char>, Seq<char>, Seq<char>),
    Over,
}

impl View for Stage {
    type V = StageView;

    open spec fn view(&self) -> StageView {
        match *self {
            Stage::Start => StageView::Start,
            Stage::Extract => StageView::Extract,
            Stage::Route(ex) => StageView::Route(ex@),
            Stage::Ask(ex) => StageView::Ask(ex@),
            Stage::Write(s, n, t) => StageView::Write(s@, n@, t@),
            Stage::Over => StageView::Over,
        }
    }
}

/// One job that is being worked off.
#[derive(Debug, Clone)]
pub struct Pipeline {
    pub vault: VaultPaths,
    pub backend: AiBackend,
    pub max_extract_chars: usize,
    pub job: IngestJob,
    /// The hash of the source, once it is known.
    pub hash: String,
    pub stage: Stage,
}

/// What a [`Pipeline`] holds.
pub struct PipelineView {
    pub root: Seq<char>,
    pub backend: AiBackend,
    pub max_extract_chars: usize,
    pub job: JobView,
    pub hash: Seq<char>,
    pub stage: StageView,
}

impl View for Pipeline {
    type V = PipelineView;

    open spec fn view(&self) -> PipelineView {
        PipelineView {
            root: self.vault.root@,
            backend: self.backend,
            max_extract_chars: self.max_extract_chars,
            job: self.job@,
            hash: self.hash@,
            stage: self.stage@,
        }
    }
}

/// The event answers what is asked at this stage.
pub open spec fn fits(stage: StageView, e: EventView) -> bool {
    match stage {
        StageView::Start => e is Missing || e is Source,
        StageView::Extract => e is Extracted,
        StageView::Route(_) => e is Projects,
        StageView::Ask(_) => e is Answer,
        StageView::Write(_, _, _) => e is Written,
        StageView::Over => false,
    }
}

/// What Grok is told of an item.
pub open spec fn payload_text(j: JobView, ex: ExtractedView, projects: Seq<Seq<char>>, max: int) -> Seq<
    char,
> {
    "job_id: "@ + ids::uuid_text(j.id) + "\nsource_path: "@ + j.source_path + "\nkind: "@
        + job::kind_text(ex.kind) + "\ntitle: "@ + or_empty(ex.title) + "\nsource_url: "@ + or_empty(
        ex.source_url,
    ) + "\nexisting_projects: "@ + split::joined(projects, ", "@) + "\nextract_notes: "@
        + split::joined(ex.notes, "; "@) + "\n\n--- BEGIN CONTENT ---\n"@ + extract::truncated(
        ex.text,
        max,
    ) + "\n--- END CONTENT ---\n"@
}

/// The text, or nothing.
pub open spec fn or_empty(o: Option<Seq<char>>) -> Seq<char> {
    match o {
        Some(s) => s,
        None => ""@,
    }
}

/// What Grok is told of an item.
pub fn ai_payload(job: &IngestJob, ex: &Extracted, projects: &Vec<String>, max: usize) -> (r: String)
    ensures
        r@ == payload_text(job@, ex@, text::views(projects@), max as int),
{
    let mut s = glue("job_id: ", ids::id_text(job.id).as_str());
    s.append("\nsource_path: ");
    s.append(job.source_path.as_str());
    s.append("\nkind: ");
    s.append(ex.kind.name());
    s.append("\ntitle: ");
    s.append(text::text_or(&ex.title, ""));
    s.append("\nsource_url: ");
    s.append(text::text_or(&ex.source_url, ""));
    s.append("\nexisting_projects: ");
    s.append(split::join(projects, ", ").as_str());
    s.append("\nextract_notes: ");
    s.append(split::join(&ex.notes, "; ").as_str());
    s.append("\n\n--- BEGIN CONTENT ---\n");
    s.append(truncate_chars(ex.text.as_str(), max).as_str());
    s.append("\n--- END CONTENT ---\n");
    s
}

impl PipelineView {
    /// A source that was dropped into the vault is moved away; any other stays.
    pub open spec fn moves(self) -> Seq<EffectView> {
        let from = self.job.source_path;
        if paths::inside(from, vault::two_below(self.root, "raw"@, "incoming"@)) {
            seq![
                EffectView::Move(
                    from,
                    vault::processed_path(self.root, from, ids::uuid_text(self.job.id)),
                ),
            ]
        } else {
            Seq::empty()
        }
    }

    /// Where the extract is kept.
    pub open spec fn extract_path(self) -> Seq<char> {
        paths::under(
            vault::two_below(self.root, "raw"@, "extracts"@),
            ids::uuid_text(self.job.id) + ".md"@,
        )
    }

    /// The note lies in the directory of its project, which lies in the vault.
    pub open spec fn note_is_kept(self) -> bool {
        match self.stage {
            StageView::Write(slug, path, _) => paths::inside(path, self.project_dir(slug))
                && paths::inside(path, self.root),
            _ => false,
        }
    }

    /// Where a project is kept.
    pub open spec fn project_dir(self, slug: Seq<char>) -> Seq<char> {
        paths::under(vault::two_below(self.root, "wiki"@, "projects"@), slug)
    }
}

/// What the note of an item says: slug and title of its project, its own title, its
/// text and its summary.
pub struct NoteView {
    pub slug: Seq<char>,
    pub project_title: Seq<char>,
    pub title: Seq<char>,
    pub body: Seq<char>,
    pub summary: Seq<char>,
}

/// The note of an item: what Grok returned, or what can be said without it.
pub open spec fn note_of(j: JobView, ex: ExtractedView, ai: Option<AiView>, date: Seq<char>) -> NoteView {
    match ai {
        Some(a) => NoteView {
            slug: slug::slug_of(a.project_slug),
            project_title: a.project_title,
            title: a.note_title,
            body: notes::ai_note_text(j, ex, a, date),
            summary: a.summary,
        },
        None => {
            let guess = extract::guessed_title(ex.title, ex.source_url, ex.text);
            let summary = notes::summary_text(ex.text);
            NoteView {
                slug: slug::slug_of(guess),
                project_title: guess,
                title: notes::title_or_note(ex.title),
                body: notes::heuristic_note_text(j, ex, summary, date),
                summary,
            }
        },
    }
}

/// The name of the file of a note.
pub open spec fn note_file_name(title: Seq<char>, now: Timestamp) -> Seq<char> {
    now.compact_date_text() + "-"@ + slug::slug_of(title) + ".md"@
}

/// Writing the note of an item.
pub open spec fn writing(p: PipelineView, ex: ExtractedView, ai: Option<AiView>, now: Timestamp) -> (
    PipelineView,
    Seq<EffectView>,
    AskView,
) {
    let j = p.job.moved(JobStatus::Writing, now);
    let n = note_of(j, ex, ai, now.date_text());
    let dir = p.project_dir(n.slug);
    let project_md = paths::under(dir, "_project.md"@);
    let file = note_file_name(n.title, now);
    let path = paths::under(dir, file);
    (
        PipelineView { job: j, stage: StageView::Write(n.slug, path, n.title), ..p },
        seq![
            EffectView::Put,
            EffectView::Project(
                dir,
                project_md,
                vault::project_note_text(n.slug, n.project_title, now.date_text()),
                vault::project_link_text(n.slug, n.project_title),
            ),
            EffectView::WriteFile(path, n.body),
            EffectView::AppendSource(project_md, file, n.title, n.summary),
        ],
        AskView::Written,
    )
}

/// The notes on an extract as JSON, if there are any.
pub open spec fn metadata(notes: Seq<Seq<char>>) -> Option<Seq<char>> {
    if notes.len() == 0 {
        None
    } else {
        Some(json::json_list(notes))
    }
}

/// The next state of a job, with what to do and to ask, or with nothing where the
/// list of hashes cannot be read.
pub open spec fn stepped(p: PipelineView, e: EventView, now: Timestamp) -> (
    PipelineView,
    Option<(Seq<EffectView>, AskView)>,
) {
    match (p.stage, e) {
        (StageView::Start, EventView::Missing) => (
            PipelineView {
                job: JobView {
                    error: Some("source missing"@),
                    ..p.job.moved(JobStatus::Skipped, now)
                },
                stage: StageView::Over,
                ..p
            },
            Some((seq![EffectView::Put], AskView::Nothing)),
        ),
        (StageView::Start, EventView::Source(data, seen)) => {
            let h = bytes::hex_of(hash::sha256_digest(data));
            let j = JobView { content_sha256: Some(h), ..p.job };
            match queue::seen_in(seen, h) {
                Err(_) => (PipelineView { job: j, hash: h, ..p }, None),
                Ok(true) => (
                    PipelineView {
                        job: JobView {
                            error: Some("duplicate content hash"@),
                            ..j.moved(JobStatus::Skipped, now)
                        },
                        hash: h,
                        stage: StageView::Over,
                        ..p
                    },
                    Some((seq![EffectView::Put] + p.moves(), AskView::Nothing)),
                ),
                Ok(false) => (
                    PipelineView {
                        job: j.moved(JobStatus::Extracting, now),
                        hash: h,
                        stage: StageView::Extract,
                        ..p
                    },
                    Some((seq![EffectView::Put], AskView::Extract)),
                ),
            }
        },
        (StageView::Extract, EventView::Extracted(ex)) => (
            PipelineView {
                job: JobView {
                    title: ex.title,
                    source_url: ex.source_url,
                    kind: ex.kind,
                    metadata_json: metadata(ex.notes),
                    extracted_text_path: Some(p.extract_path()),
                    ..p.job
                },
                stage: StageView::Route(ex),
                ..p
            },
            Some(
                (
                    seq![
                        EffectView::WriteFile(
                            p.extract_path(),
                            notes::extract_file_text(p.job.id, ex),
                        ),
                        EffectView::Put,
                    ],
                    AskView::Projects,
                ),
            ),
        ),
        (StageView::Route(ex), EventView::Projects(projects)) => match p.backend {
            AiBackend::GrokSession => (
                PipelineView {
                    job: p.job.moved(JobStatus::AwaitingAi, now),
                    stage: StageView::Ask(ex),
                    ..p
                },
                Some(
                    (
                        seq![EffectView::Put],
                        AskView::Ai(payload_text(p.job, ex, projects, p.max_extract_chars as int)),
                    ),
                ),
            ),
            AiBackend::QueueOnly => {
                let w = writing(p, ex, None, now);
                (w.0, Some((w.1, w.2)))
            },
        },
        (StageView::Ask(ex), EventView::Answer(ai)) => {
            let w = writing(p, ex, ai, now);
            (w.0, Some((w.1, w.2)))
        },
        (StageView::Write(slug, path, title), EventView::Written) => (
            PipelineView {
                job: JobView {
                    project_slug: Some(slug),
                    note_path: Some(path),
                    title: Some(title),
                    ..p.job.moved(JobStatus::Done, now)
                },
                stage: StageView::Over,
                ..p
            },
            Some((p.moves() + seq![EffectView::Mark(p.hash), EffectView::Put], AskView::Nothing)),
        ),
        _ => (p, None),
    }
}

impl Pipeline {
    /// A job at its start, under the settings given.
    pub fn new(cfg: &Config, job: IngestJob) -> (r: Pipeline)
        ensures
            r.job == job,
            r@.root == cfg.vault_path@,
            r.backend == cfg.ai_backend,
            r.max_extract_chars == cfg.max_extract_chars,
            r@.hash.len() == 0,
            r@.stage is Start,
    {
        Pipeline {
            vault: VaultPaths::new(cfg.vault_path.clone()),
            backend: cfg.ai_backend,
            max_extract_chars: cfg.max_extract_chars,
            job,
            hash: String::new(),
            stage: Stage::Start,
        }
    }

    /// A source that was dropped into the vault is moved away.
    fn push_moves(&self, effects: &mut Vec<Effect>)
        ensures
            effects_view(final(effects)@) == effects_view(old(effects)@) + self@.moves(),
    {
        let ghost before = effects@;
        let incoming = self.vault.incoming();
        if paths::is_inside(self.job.source_path.as_str(), incoming.as_str()) {
            let id = ids::id_text(self.job.id);
            let to = self.vault.move_to_processed(self.job.source_path.as_str(), id.as_str());
            effects.push(Effect::Move(self.job.source_path.clone(), to));
        }
        assert(effects_view(effects@) == effects_view(before) + self@.moves());
    }

    fn on_missing(&mut self, now: Timestamp) -> (r: Turn)
        requires
            old(self)@.stage is Start,
        ensures
            stepped(old(self)@, EventView::Missing, now) == (final(self)@, Some(
                (effects_view(r.effects@), r.ask@),
            )),
    {
        self.job.set_status_at(JobStatus::Skipped, now);
        self.job.error = Some("source missing".to_owned());
        self.stage = Stage::Over;
        let mut effects: Vec<Effect> = Vec::new();
        effects.push(Effect::Put);
        assert(effects_view(effects@) == seq![EffectView::Put]);
        Turn { effects, ask: Ask::Nothing }
    }

    fn on_source(&mut self, data: &Vec<u8>, seen: &Vec<u8>, now: Timestamp) -> (r: Result<
        Turn,
        Malformed,
    >)
        requires
            old(self)@.stage is Start,
        ensures
            match r {
                Ok(t) => stepped(old(self)@, EventView::Source(data@, seen@), now) == (
                    final(self)@,
                    Some((effects_view(t.effects@), t.ask@)),
                ),
                Err(_) => stepped(old(self)@, EventView::Source(data@, seen@), now) == (
                    final(self)@,
                    None::<(Seq<EffectView>, AskView)>,
                ),
            },
    {
        let h = file_sha256(data.as_slice());
        self.hash = h.clone();
        self.job.content_sha256 = Some(h.clone());
        match JobQueue::hash_seen(seen, h.as_str()) {
            Err(_) => Err(Malformed),
            Ok(true) => {
                let mut effects: Vec<Effect> = Vec::new();
                effects.push(Effect::Put);
                assert(effects_view(effects@) == seq![EffectView::Put]);
                self.push_moves(&mut effects);
                self.job.set_status_at(JobStatus::Skipped, now);
                self.job.error = Some("duplicate content hash".to_owned());
                self.stage = Stage::Over;
                Ok(Turn { effects, ask: Ask::Nothing })
            },
            Ok(false) => {
                let mut effects: Vec<Effect> = Vec::new();
                effects.push(Effect::Put);
                assert(effects_view(effects@) == seq![EffectView::Put]);
                self.job.set_status_at(JobStatus::Extracting, now);
                self.stage = Stage::Extract;
                Ok(Turn { effects, ask: Ask::Extract })
            },
        }
    }

    fn on_extracted(&mut self, ex: Extracted, now: Timestamp) -> (r: Turn)
        requires
            old(self)@.stage is Extract,
        ensures
            stepped(old(self)@, EventView::Extracted(ex@), now) == (final(self)@, Some(
                (effects_view(r.effects@), r.ask@),
            )),
    {
        self.job.title = text::copy_opt(&ex.title);
        self.job.source_url = text::copy_opt(&ex.source_url);
        self.job.kind = ex.kind;
        self.job.metadata_json = if ex.notes.len() == 0 {
            None
        } else {
            Some(json::quoted_list(&ex.notes))
        };
        let dir = self.vault.extracts();
        let name = glue(ids::id_text(self.job.id).as_str(), ".md");
        let path = paths::join(dir.as_str(), name.as_str());
        let body = notes::write_extract_file(self.job.id, &ex);
        self.job.extracted_text_path = Some(path.clone());
        let mut effects: Vec<Effect> = Vec::new();
        effects.push(Effect::WriteFile(path, body));
        effects.push(Effect::Put);
        assert(effects_view(effects@) == seq![EffectView::WriteFile(path@, body@), EffectView::Put]);
        self.stage = Stage::Route(ex);
        Turn { effects, ask: Ask::Projects }
    }

    /// Writes the note of an item.
    fn write_note(&mut self, ex: Extracted, ai: Option<AiIngestResult>, now: Timestamp) -> (r: Turn)
        requires
            now.dated(),
        ensures
            writing(
                old(self)@,
                ex@,
                match ai {
                    Some(a) => Some(a@),
                    None => None,
                },
                now,
            ) == (final(self)@, effects_view(r.effects@), r.ask@),
            final(self)@.note_is_kept(),
    {
        let ghost before = self@;
        self.job.set_status_at(JobStatus::Writing, now);
        let (slug, project_title, title, body, summary) = match ai {
            Some(a) => (
                slugify(a.project_slug.as_str()),
                a.project_title.clone(),
                a.note_title.clone(),
                notes::build_note_from_ai_at(&self.job, &ex, &a, now),
                a.summary.clone(),
            ),
            None => {
                let (s, t) = heuristic_project(
                    crate::config::as_str_opt(&ex.title),
                    crate::config::as_str_opt(&ex.source_url),
                    ex.text.as_str(),
                );
                let summary = notes::summary_heuristic(ex.text.as_str());
                let title = text::text_or(&ex.title, "Research note").to_owned();
                let body = notes::build_heuristic_note_at(&self.job, &ex, summary.as_str(), now);
                (s, t, title, body, summary)
            },
        };
        let plan = self.vault.project_plan(slug.as_str(), project_title.as_str(), now);
        let mut file = glue(now.compact_date().as_str(), "-");
        file.append(slugify(title.as_str()).as_str());
        file.append(".md");
        let path = paths::join(plan.dir.as_str(), file.as_str());
        proof {
            lemma_note_is_kept(self@, slug@, file@, title@, now);
        }
        let project_md = plan.note_path.clone();
        self.stage = Stage::Write(slug, path.clone(), title.clone());
        let ghost pv = (Effect::Project(plan))@;
        let mut effects: Vec<Effect> = Vec::new();
        effects.push(Effect::Put);
        effects.push(Effect::Project(plan));
        effects.push(Effect::WriteFile(path, body));
        effects.push(Effect::AppendSource(project_md, file, title, summary));
        assert(effects_view(effects@) == seq![
            EffectView::Put,
            pv,
            EffectView::WriteFile(path@, body@),
            EffectView::AppendSource(project_md@, file@, title@, summary@),
        ]);
        Turn { effects, ask: Ask::Written }
    }

    fn on_written(&mut self, slug: String, path: String, title: String, now: Timestamp) -> (r: Turn)
        requires
            old(self)@.stage == StageView::Write(slug@, path@, title@),
        ensures
            stepped(old(self)@, EventView::Written, now) == (final(self)@, Some(
                (effects_view(r.effects@), r.ask@),
            )),
    {
        let mut effects: Vec<Effect> = Vec::new();
        assert(effects_view(effects@) == Seq::<EffectView>::empty());
        self.push_moves(&mut effects);
        let ghost m = self@.moves();
        assert(Seq::<EffectView>::empty() + m == m);
        effects.push(Effect::Mark(self.hash.clone()));
        effects.push(Effect::Put);
        assert(effects_view(effects@) == m + seq![EffectView::Mark(self.hash@), EffectView::Put]);
        self.job.project_slug = Some(slug);
        self.job.note_path = Some(path);
        self.job.title = Some(title);
        self.job.set_status_at(JobStatus::Done, now);
        self.stage = Stage::Over;
        Turn { effects, ask: Ask::Nothing }
    }

    /// Tells the machine, at a given time, what was read. The event answers what was
    /// last asked.
    pub fn step_at(&mut self, event: Event, now: Timestamp) -> (r: Result<Turn, Malformed>)
        requires
            fits(old(self)@.stage, event@),
            now.dated(),
        ensures
            match r {
                Ok(t) => stepped(old(self)@, event@, now) == (final(self)@, Some(
                    (effects_view(t.effects@), t.ask@),
                )),
                Err(_) => stepped(old(self)@, event@, now) == (final(self)@, None::<
                    (Seq<EffectView>, AskView),
                >),
            },
            final(self)@.stage is Write ==> final(self)@.note_is_kept(),
    {
        match event {
            Event::Missing => Ok(self.on_missing(now)),
            Event::Source(data, seen) => self.on_source(&data, &seen, now),
            Event::Extracted(ex) => Ok(self.on_extracted(ex, now)),
            Event::Projects(projects) => {
                let ghost before = self@;
                let stage = self.take_stage();
                match stage {
                    Stage::Route(ex) => {
                        match self.backend {
                            AiBackend::GrokSession => {
                                let payload = ai_payload(
                                    &self.job,
                                    &ex,
                                    &projects,
                                    self.max_extract_chars,
                                );
                                self.job.set_status_at(JobStatus::AwaitingAi, now);
                                self.stage = Stage::Ask(ex);
                                let mut effects: Vec<Effect> = Vec::new();
                                effects.push(Effect::Put);
                                assert(effects_view(effects@) == seq![EffectView::Put]);
                                Ok(Turn { effects, ask: Ask::Ai(payload) })
                            },
                            AiBackend::QueueOnly => Ok(self.write_note(ex, None, now)),
                        }
                    },
                    _ => Err(Malformed),
                }
            },
            Event::Answer(ai) => {
                let stage = self.take_stage();
                match stage {
                    Stage::Ask(ex) => Ok(self.write_note(ex, ai, now)),
                    _ => Err(Malformed),
                }
            },
            Event::Written => {
                let stage = self.take_stage();
                match stage {
                    Stage::Write(slug, path, title) => {
                        self.stage = Stage::Write(slug.clone(), path.clone(), title.clone());
                        Ok(self.on_written(slug, path, title, now))
                    },
                    _ => Err(Malformed),
                }
            },
        }
    }

    /// The stage, which is left at its end.
    fn take_stage(&mut self) -> (r: Stage)
        ensures
            r == old(self).stage,
            *final(self) == (Pipeline { stage: Stage::Over, ..*old(self) }),
    {
        let mut s = Stage::Over;
        std::mem::swap(&mut s, &mut self.stage);
        s
    }

    /// Tells the machine what was read. The event answers what was last asked.
    pub fn step(&mut self, event: Event) -> (r: Result<Turn, Malformed>)
        requires
            fits(old(self)@.stage, event@),
        ensures
            exists|now: Timestamp|
                now.dated() && match r {
                    Ok(t) => #[trigger] stepped(old(self)@, event@, now) == (final(self)@, Some(
                        (effects_view(t.effects@), t.ask@),
                    )),
                    Err(_) => stepped(old(self)@, event@, now) == (final(self)@, None::<
                        (Seq<EffectView>, AskView),
                    >),
                },
            final(self)@.stage is Write ==> final(self)@.note_is_kept(),
    {
        let now = clock::utc_now();
        self.step_at(event, now)
    }
}

/// A note is kept where its project is, whatever its title.
proof fn lemma_note_is_kept(
    p: PipelineView,
    slug: Seq<char>,
    file: Seq<char>,
    title: Seq<char>,
    now: Timestamp,
)
    requires
        exists|named: Seq<char>| slug == #[trigger] slug::slug_of(named),
        file == note_file_name(title, now),
        forall|i: int|
            0 <= i < now.compact_date_text().len() ==> clock::date_char(
                #[trigger] now.compact_date_text()[i],
            ),
    ensures
        paths::inside(paths::under(p.project_dir(slug), file), p.project_dir(slug)),
        paths::inside(paths::under(p.project_dir(slug), file), p.root),
{
    let named = choose|named: Seq<char>| slug == #[trigger] slug::slug_of(named);
    vault::projects_stay_in_the_vault(p.root, named);
    slug::slug_is_a_safe_name(title);
    reveal_strlit("-");
    reveal_strlit(".md");
    let d = now.compact_date_text();
    let s = slug::slug_of(title);
    assert(file.len() > 2);
    assert forall|k: int| 0 <= k < file.len() implies #[trigger] file[k] != '/' by {
        let n = d.len() as int;
        let m = s.len() as int;
        if k < n {
            assert(file[k] == d[k]);
        } else if k == n {
            assert(file[k] == '-');
        } else if k < n + 1 + m {
            assert(file[k] == s[k - n - 1]);
        } else {
            assert(file[k] == ".md"@[k - n - 1 - m]);
        }
    }
    let dir = p.project_dir(slug);
    paths::lemma_components_under(dir, file);
    paths::lemma_inside_trans(paths::under(dir, file), dir, p.root);
}

/// Another job is worked off after so many.
pub open spec fn drains_on(done: usize, limit: Option<usize>) -> bool {
    match limit {
        Some(n) => done < n,
        None => true,
    }
}

/// How many jobs are worked off at once, given how many were, where `open` are left.
pub open spec fn drained(done: nat, open: nat, limit: Option<usize>) -> nat
    decreases open,
{
    if open == 0 || done > usize::MAX || !drains_on(done as usize, limit) {
        done
    } else {
        drained(done + 1, (open - 1) as nat, limit)
    }
}

/// Whether another job is worked off: there may be a limit on their number.
pub fn may_drain(done: usize, limit: Option<usize>) -> (r: bool)
    ensures
        r == (match limit {
            Some(n) => done < n,
            None => true,
        }),
        r == drains_on(done, limit),
{
    match limit {
        Some(n) => done < n,
        None => true,
    }
}

/// Whatever happens to a job, it stays the job that it is: its identifier, its source
/// and its time of creation never change.
pub proof fn a_job_stays_itself(p: PipelineView, e: EventView, now: Timestamp)
    ensures
        stepped(p, e, now).0.job.same_job(p.job),
        stepped(p, e, now).0.root == p.root,
        stepped(p, e, now).0.backend == p.backend,
        stepped(p, e, now).0.max_extract_chars == p.max_extract_chars,
{
}

/// Where Grok is not to be used, it is never asked.
pub proof fn queue_only_never_asks(p: PipelineView, e: EventView, now: Timestamp)
    requires
        p.backend == AiBackend::QueueOnly,
    ensures
        match stepped(p, e, now).1 {
            Some((_, ask)) => !(ask is Ai),
            None => true,
        },
{
}

/// Content whose hash was seen is skipped: it is neither extracted nor written again,
/// and it is not recorded twice.
pub proof fn seen_content_is_skipped(p: PipelineView, data: Seq<u8>, seen: Seq<u8>, now: Timestamp)
    requires
        p.stage is Start,
        queue::seen_in(seen, bytes::hex_of(hash::sha256_digest(data))) == Ok::<bool, Malformed>(
            true,
        ),
    ensures
        ({
            let (q, turn) = stepped(p, EventView::Source(data, seen), now);
            &&& q.job.status == JobStatus::Skipped
            &&& q.job.error == Some("duplicate content hash"@)
            &&& q.stage is Over
            &&& turn is Some
            &&& turn.unwrap().1 is Nothing
            &&& forall|i: int|
                0 <= i < turn.unwrap().0.len() ==> (#[trigger] turn.unwrap().0[i]) is Put
                    || turn.unwrap().0[i] is Move
        }),
{
}

/// A hash is recorded only when the note is written and the job is done; and every job
/// that is done has its hash recorded, its note and its project.
pub proof fn recorded_means_done(p: PipelineView, e: EventView, now: Timestamp)
    requires
        fits(p.stage, e),
        p.job.status != JobStatus::Done,
        stepped(p, e, now).1 is Some,
    ensures
        ({
            let (q, turn) = stepped(p, e, now);
            let effects = turn.unwrap().0;
            let marks = exists|i: int| 0 <= i < effects.len() && #[trigger] effects[i] is Mark;
            &&& marks <==> q.job.status == JobStatus::Done
            &&& marks ==> p.stage is Write && q.job.note_path is Some && q.job.project_slug is Some
        }),
{
    let effects = stepped(p, e, now).1.unwrap().0;
    match p.stage {
        StageView::Write(_, _, _) => {
            let k = p.moves().len() as int;
            assert(effects[k] is Mark);
        },
        StageView::Start => {},
        StageView::Extract => {},
        StageView::Route(_) => {},
        StageView::Ask(_) => {},
        StageView::Over => {},
    }
}

/// How far a stage is from the end.
pub open spec fn left_to_do(s: StageView) -> nat {
    match s {
        StageView::Start => 5,
        StageView::Extract => 4,
        StageView::Route(_) => 3,
        StageView::Ask(_) => 2,
        StageView::Write(_, _, _) => 1,
        StageView::Over => 0,
    }
}

/// Every turn stores the job and brings it nearer to its end; nothing is asked once it
/// is over, and only then.
pub proof fn every_turn_moves_on(p: PipelineView, e: EventView, now: Timestamp)
    requires
        fits(p.stage, e),
        stepped(p, e, now).1 is Some,
    ensures
        ({
            let (q, turn) = stepped(p, e, now);
            let effects = turn.unwrap().0;
            &&& left_to_do(q.stage) < left_to_do(p.stage)
            &&& exists|i: int| 0 <= i < effects.len() && #[trigger] effects[i] is Put
            &&& turn.unwrap().1 is Nothing <==> q.stage is Over
        }),
{
    let (q, turn) = stepped(p, e, now);
    let effects = turn.unwrap().0;
    match p.stage {
        StageView::Write(_, _, _) => {
            let k = p.moves().len() as int;
            assert(effects[k + 1] is Put);
        },
        StageView::Extract => {
            assert(effects[1] is Put);
        },
        StageView::Start => {
            assert(effects[0] is Put);
        },
        StageView::Route(_) => {
            assert(effects[0] is Put);
        },
        StageView::Ask(_) => {
            assert(effects[0] is Put);
        },
        StageView::Over => {},
    }
}

/// The turn in which the note of an unseen source is written: the source is extracted,
/// and Grok is asked where it is to be used. `t` holds the times of the turns.
pub open spec fn writing_turn(
    p: PipelineView,
    data: Seq<u8>,
    seen: Seq<u8>,
    ex: ExtractedView,
    projects: Seq<Seq<char>>,
    ai: Option<AiView>,
    t: Seq<Timestamp>,
) -> (PipelineView, Option<(Seq<EffectView>, AskView)>) {
    let a = stepped(p, EventView::Source(data, seen), t[0]).0;
    let b = stepped(a, EventView::Extracted(ex), t[1]).0;
    let c = stepped(b, EventView::Projects(projects), t[2]);
    if p.backend == AiBackend::GrokSession {
        stepped(c.0, EventView::Answer(ai), t[3])
    } else {
        c
    }
}

/// What an item is worked on up to the extract.
proof fn lemma_extracted(
    p: PipelineView,
    data: Seq<u8>,
    seen: Seq<u8>,
    ex: ExtractedView,
    t0: Timestamp,
    t1: Timestamp,
)
    requires
        p.stage is Start,
        queue::seen_in(seen, bytes::hex_of(hash::sha256_digest(data))) == Ok::<bool, Malformed>(
            false,
        ),
    ensures
        ({
            let a = stepped(p, EventView::Source(data, seen), t0).0;
            let b = stepped(a, EventView::Extracted(ex), t1).0;
            &&& b.stage == StageView::Route(ex)
            &&& b.hash == bytes::hex_of(hash::sha256_digest(data))
            &&& b.job.content_sha256 == Some(b.hash)
            &&& b.job.same_job(p.job)
            &&& b.root == p.root
            &&& b.backend == p.backend
        }),
{
}

/// A note says the same of a job at any time of its life.
proof fn lemma_same_note(j: JobView, k: JobView, ex: ExtractedView, ai: Option<AiView>, date: Seq<char>)
    requires
        j.same_job(k),
    ensures
        note_of(j, ex, ai, date) == note_of(k, ex, ai, date),
{
}

/// What is done when the note of a job is written, and after that.
proof fn lemma_written(
    p: PipelineView,
    w: PipelineView,
    effects: Seq<EffectView>,
    ask: AskView,
    b: PipelineView,
    ex: ExtractedView,
    ai: Option<AiView>,
    now: Timestamp,
    end: Timestamp,
)
    requires
        b.job.same_job(p.job),
        b.root == p.root,
        (w, effects, ask) == writing(b, ex, ai, now),
    ensures
        ({
            let n = note_of(p.job, ex, ai, now.date_text());
            let dir = p.project_dir(n.slug);
            let path = paths::under(dir, note_file_name(n.title, now));
            let last = stepped(w, EventView::Written, end);
            &&& effects.contains(EffectView::WriteFile(path, n.body))
            &&& effects.contains(
                EffectView::Project(
                    dir,
                    paths::under(dir, "_project.md"@),
                    vault::project_note_text(n.slug, n.project_title, now.date_text()),
                    vault::project_link_text(n.slug, n.project_title),
                ),
            )
            &&& last.0.stage is Over
            &&& last.0.job.status == JobStatus::Done
            &&& last.0.job.content_sha256 == b.job.content_sha256
            &&& last.0.job.project_slug == Some(n.slug)
            &&& last.0.job.note_path == Some(path)
            &&& last.0.job.title == Some(n.title)
            &&& last.1 == Some(
                (p.moves() + seq![EffectView::Mark(b.hash), EffectView::Put], AskView::Nothing),
            )
        }),
{
    let j = b.job.moved(JobStatus::Writing, now);
    lemma_same_note(j, p.job, ex, ai, now.date_text());
    assert(effects[1] is Project);
    assert(effects[2] is WriteFile);
    assert(w.moves() == p.moves());
}

/// A source whose content was not seen ends as a note in a project, whether Grok answers
/// or not: the note is what Grok made of it, or else what can be said without Grok. The
/// project is listed, the note is written, and at the end the job is done with the note
/// on record, the hash of the content is recorded, and a source that was dropped into the
/// vault is moved away.
pub proof fn unseen_content_becomes_a_note(
    p: PipelineView,
    data: Seq<u8>,
    seen: Seq<u8>,
    ex: ExtractedView,
    projects: Seq<Seq<char>>,
    ai: Option<AiView>,
    t: Seq<Timestamp>,
)
    requires
        p.stage is Start,
        queue::seen_in(seen, bytes::hex_of(hash::sha256_digest(data))) == Ok::<bool, Malformed>(
            false,
        ),
    ensures
        ({
            let h = bytes::hex_of(hash::sha256_digest(data));
            let w = writing_turn(p, data, seen, ex, projects, ai, t);
            let last = stepped(w.0, EventView::Written, t[4]);
            let (used, now) = if p.backend == AiBackend::GrokSession {
                (ai, t[3])
            } else {
                (None, t[2])
            };
            let n = note_of(p.job, ex, used, now.date_text());
            let dir = p.project_dir(n.slug);
            let path = paths::under(dir, note_file_name(n.title, now));
            &&& w.1 is Some
            &&& w.1.unwrap().0.contains(EffectView::WriteFile(path, n.body))
            &&& w.1.unwrap().0.contains(
                EffectView::Project(
                    dir,
                    paths::under(dir, "_project.md"@),
                    vault::project_note_text(n.slug, n.project_title, now.date_text()),
                    vault::project_link_text(n.slug, n.project_title),
                ),
            )
            &&& last.0.stage is Over
            &&& last.0.job.status == JobStatus::Done
            &&& last.0.job.content_sha256 == Some(h)
            &&& last.0.job.project_slug == Some(n.slug)
            &&& last.0.job.note_path == Some(path)
            &&& last.0.job.title == Some(n.title)
            &&& last.1 == Some(
                (p.moves() + seq![EffectView::Mark(h), EffectView::Put], AskView::Nothing),
            )
        }),
{
    lemma_extracted(p, data, seen, ex, t[0], t[1]);
    let a = stepped(p, EventView::Source(data, seen), t[0]).0;
    let b = stepped(a, EventView::Extracted(ex), t[1]).0;
    let c = stepped(b, EventView::Projects(projects), t[2]);
    if p.backend == AiBackend::GrokSession {
        let w = writing(c.0, ex, ai, t[3]);
        assert(c.0.stage == StageView::Ask(ex));
        assert(stepped(c.0, EventView::Answer(ai), t[3]) == (w.0, Some((w.1, w.2))));
        lemma_written(p, w.0, w.1, w.2, c.0, ex, ai, t[3], t[4]);
    } else {
        let w = writing(b, ex, None, t[2]);
        assert(c == (w.0, Some((w.1, w.2))));
        lemma_written(p, w.0, w.1, w.2, b, ex, None, t[2], t[4]);
    }
}

/// The same content is not worked off twice: once its hash was recorded, any job for a
/// file with this content is skipped, and nothing is written for it.
pub proof fn content_is_worked_off_once(
    hashes: Seq<Seq<char>>,
    p: PipelineView,
    data: Seq<u8>,
    now: Timestamp,
)
    requires
        p.stage is Start,
        forall|i: int| 0 <= i < hashes.len() ==> queue::recordable(#[trigger] hashes[i]),
    ensures
        ({
            let h = bytes::hex_of(hash::sha256_digest(data));
            let (q, turn) = stepped(
                p,
                EventView::Source(data, queue::seen_log(hashes) + queue::seen_line(h)),
                now,
            );
            &&& q.job.status == JobStatus::Skipped
            &&& q.stage is Over
            &&& turn == Some((seq![EffectView::Put] + p.moves(), AskView::Nothing))
        }),
{
    let h = bytes::hex_of(hash::sha256_digest(data));
    queue::hex_is_recordable(hash::sha256_digest(data));
    let all = hashes.push(h);
    assert(all.drop_last() == hashes);
    assert(all[hashes.len() as int] == h);
    assert forall|i: int| 0 <= i < all.len() implies queue::recordable(#[trigger] all[i]) by {
        if i < hashes.len() {
            assert(all[i] == hashes[i]);
        }
    }
    queue::seen_means_recorded(all, h);
}

/// Grok chooses the project by its slug: the note is written into the directory of that
/// project, that project is seen to and lists the note, and the job is done under that slug,
/// whatever the title of the project is said to be. A slug in lower case words with single
/// dashes is used as it is.
pub proof fn grok_chooses_the_project(
    p: PipelineView,
    ex: ExtractedView,
    a: AiView,
    now: Timestamp,
    end: Timestamp,
)
    requires
        p.stage == StageView::Ask(ex),
    ensures
        slug::is_kebab(a.project_slug) ==> slug::slug_of(a.project_slug) == a.project_slug,
        ({
            let (w, turn) = stepped(p, EventView::Answer(Some(a)), now);
            let done = stepped(w, EventView::Written, end).0;
            let chosen = slug::slug_of(a.project_slug);
            let dir = paths::under(
                paths::under(paths::under(p.root, "wiki"@), "projects"@),
                chosen,
            );
            let file = now.compact_date_text() + "-"@ + slug::slug_of(a.note_title) + ".md"@;
            &&& turn is Some
            &&& turn.unwrap().1 is Written
            &&& forall|i: int|
                0 <= i < turn.unwrap().0.len() ==> match #[trigger] turn.unwrap().0[i] {
                    EffectView::WriteFile(path, body) => path == paths::under(dir, file)
                        && search::occurs(body, a.markdown),
                    EffectView::Project(d, note, body, link) => d == dir && note == paths::under(
                        dir,
                        "_project.md"@,
                    ) && search::occurs(link, chosen) && search::occurs(
                        link,
                        a.project_title,
                    ) && search::occurs(body, chosen) && search::occurs(
                        body,
                        a.project_title,
                    ),
                    EffectView::AppendSource(note, f, title, summary) => note == paths::under(
                        dir,
                        "_project.md"@,
                    ) && f == file && title == a.note_title && summary == a.summary,
                    EffectView::Put => true,
                    _ => false,
                }
            &&& exists|i: int| 0 <= i < turn.unwrap().0.len() && #[trigger] turn.unwrap().0[i] is WriteFile
            &&& exists|i: int| 0 <= i < turn.unwrap().0.len() && #[trigger] turn.unwrap().0[i] is Project
            &&& exists|i: int|
                0 <= i < turn.unwrap().0.len() && #[trigger] turn.unwrap().0[i] is AppendSource
            &&& done.job.status == JobStatus::Done
            &&& done.job.project_slug == Some(chosen)
            &&& done.job.note_path == Some(paths::under(dir, file))
            &&& done.job.title == Some(a.note_title)
        }),
{
    if slug::is_kebab(a.project_slug) {
        slug::kebab_slug_is_kept(a.project_slug);
    }
    let effects = stepped(p, EventView::Answer(Some(a)), now).1.unwrap().0;
    assert(effects[1] is Project);
    assert(effects[2] is WriteFile);
    assert(effects[3] is AppendSource);
    let j = p.job.moved(JobStatus::Writing, now);
    notes::grok_is_quoted(j, ex, a, now.date_text());
    vault::projects_are_named(slug::slug_of(a.project_slug), a.project_title, now.date_text());
}

/// The status of a job tells how far it has come, and every change of it is stamped with the
/// time of the turn: a job is extracting while its source is read, awaits Grok while Grok is
/// asked, is writing while its note is written, and at its end is done, or is skipped with
/// the reason on record.
pub proof fn the_status_tells_the_stage(p: PipelineView, e: EventView, now: Timestamp)
    requires
        fits(p.stage, e),
        stepped(p, e, now).1 is Some,
    ensures
        ({
            let q = stepped(p, e, now).0;
            &&& q.stage is Extract <==> p.stage is Start && q.job.status == JobStatus::Extracting
            &&& q.stage is Ask ==> q.job.status == JobStatus::AwaitingAi
            &&& q.stage is Write ==> q.job.status == JobStatus::Writing
            &&& q.stage is Route ==> q.job.status == p.job.status && q.job.updated_at
                == p.job.updated_at
            &&& q.stage is Over && p.stage is Write ==> q.job.status == JobStatus::Done
                && q.job.error == p.job.error
            &&& q.stage is Over && p.stage is Start ==> q.job.status == JobStatus::Skipped
                && q.job.error is Some
            &&& !(q.stage is Route) ==> q.job.updated_at == now
        }),
{
}

/// A source that is gone is skipped: nothing is written, moved, recorded or asked.
pub proof fn missing_sources_are_skipped(p: PipelineView, now: Timestamp)
    requires
        p.stage is Start,
    ensures
        ({
            let (q, turn) = stepped(p, EventView::Missing, now);
            &&& q.job.status == JobStatus::Skipped
            &&& q.stage is Over
            &&& q.job.error == Some("source missing"@)
            &&& q.job.content_sha256 == p.job.content_sha256
            &&& q.job.note_path == p.job.note_path
            &&& turn is Some
            &&& turn.unwrap().1 is Nothing
            &&& forall|i: int| 0 <= i < turn.unwrap().0.len() ==> #[trigger] turn.unwrap().0[i] is Put
        }),
{
}

/// What was extracted is kept before anybody is asked: its text is written, whole, to a file
/// of the job in `raw/extracts`, and the job records that file, the title, the address, the
/// kind and the notes of the extract. The hash of the content stays on record.
pub proof fn extracts_are_recorded(p: PipelineView, ex: ExtractedView, now: Timestamp)
    requires
        p.stage is Extract,
    ensures
        ({
            let (q, turn) = stepped(p, EventView::Extracted(ex), now);
            let file = paths::under(
                paths::under(paths::under(p.root, "raw"@), "extracts"@),
                ids::uuid_text(p.job.id) + ".md"@,
            );
            &&& q.stage == StageView::Route(ex)
            &&& q.hash == p.hash
            &&& q.job.content_sha256 == p.job.content_sha256
            &&& q.job.title == ex.title
            &&& q.job.source_url == ex.source_url
            &&& q.job.kind == ex.kind
            &&& q.job.extracted_text_path == Some(file)
            &&& q.job.metadata_json is None <==> ex.notes.len() == 0
            &&& q.job.metadata_json matches Some(m) ==> forall|i: int|
                0 <= i < ex.notes.len() ==> search::occurs(m, json::json_text(#[trigger] ex.notes[i]))
            &&& turn is Some
            &&& turn.unwrap().1 is Projects
            &&& forall|i: int|
                0 <= i < turn.unwrap().0.len() ==> match #[trigger] turn.unwrap().0[i] {
                    EffectView::WriteFile(path, body) => path == file && text::ends(
                        body,
                        "\n---\n\n"@ + ex.text + "\n"@,
                    ),
                    EffectView::Put => true,
                    _ => false,
                }
            &&& exists|i: int| 0 <= i < turn.unwrap().0.len() && #[trigger] turn.unwrap().0[i] is WriteFile
        }),
{
    let effects = stepped(p, EventView::Extracted(ex), now).1.unwrap().0;
    assert(effects[0] is WriteFile);
    notes::extracts_are_kept_whole(p.job.id, ex);
    if ex.notes.len() > 0 {
        json::lists_hold_their_items(ex.notes);
    }
}

/// Grok is told everything: where it is to be used it is asked with a payload that has the
/// job, the source, its kind, its title and its address, every project of the vault, every
/// note on the extract, and the text: whole up to the limit, and else its beginning.
pub proof fn grok_is_told_everything(
    p: PipelineView,
    ex: ExtractedView,
    projects: Seq<Seq<char>>,
    now: Timestamp,
)
    requires
        p.stage == StageView::Route(ex),
        p.backend == AiBackend::GrokSession,
    ensures
        ({
            let (q, turn) = stepped(p, EventView::Projects(projects), now);
            &&& q.stage == StageView::Ask(ex)
            &&& turn is Some
            &&& turn.unwrap().1 is Ai
            &&& forall|i: int| 0 <= i < turn.unwrap().0.len() ==> #[trigger] turn.unwrap().0[i] is Put
            &&& tells_everything(
                turn.unwrap().1->Ai_0,
                p.job,
                ex,
                projects,
                p.max_extract_chars as int,
            )
        }),
{
    lemma_payload(p.job, ex, projects, p.max_extract_chars as int);
}

/// The payload has all that is known of an item.
pub open spec fn tells_everything(
    payload: Seq<char>,
    j: JobView,
    ex: ExtractedView,
    projects: Seq<Seq<char>>,
    max: int,
) -> bool {
    &&& search::occurs(payload, "job_id: "@ + ids::uuid_text(j.id))
    &&& search::occurs(payload, "\nsource_path: "@ + j.source_path)
    &&& search::occurs(payload, "\nkind: "@ + job::kind_text(ex.kind))
    &&& ex.title matches Some(t) ==> search::occurs(payload, "\ntitle: "@ + t)
    &&& ex.source_url matches Some(u) ==> search::occurs(payload, "\nsource_url: "@ + u)
    &&& forall|i: int|
        0 <= i < projects.len() ==> search::occurs(payload, #[trigger] projects[i])
    &&& forall|i: int| 0 <= i < ex.notes.len() ==> search::occurs(payload, #[trigger] ex.notes[i])
    &&& ex.text.len() <= max ==> search::occurs(
        payload,
        "\n--- BEGIN CONTENT ---\n"@ + ex.text + "\n--- END CONTENT ---\n"@,
    )
    &&& ex.text.len() > max ==> search::occurs(
        payload,
        "\n--- BEGIN CONTENT ---\n"@ + ex.text.take(max),
    )
}

proof fn lemma_payload(j: JobView, ex: ExtractedView, projects: Seq<Seq<char>>, max: int)
    requires
        0 <= max,
    ensures
        tells_everything(payload_text(j, ex, projects, max), j, ex, projects, max),
{
    let list = split::joined(projects, ", "@);
    let noted = split::joined(ex.notes, "; "@);
    let text = extract::truncated(ex.text, max);
    let s0 = "job_id: "@ + ids::uuid_text(j.id);
    let s1 = s0 + "\nsource_path: "@;
    let s2 = s1 + j.source_path;
    let s3 = s2 + "\nkind: "@;
    let s4 = s3 + job::kind_text(ex.kind);
    let s5 = s4 + "\ntitle: "@;
    let s6 = s5 + or_empty(ex.title);
    let s7 = s6 + "\nsource_url: "@;
    let s8 = s7 + or_empty(ex.source_url);
    let s9 = s8 + "\nexisting_projects: "@;
    let s10 = s9 + list;
    let s11 = s10 + "\nextract_notes: "@;
    let s12 = s11 + noted;
    let s13 = s12 + "\n\n--- BEGIN CONTENT ---\n"@;
    let s14 = s13 + text;
    let end = "\n--- END CONTENT ---\n"@;
    let all = s14 + end;
    search::lemma_occurs_itself(s0);
    search::lemma_occurs_add(s0, "\nsource_path: "@);
    search::lemma_occurs_add(s1, j.source_path);
    search::lemma_occurs_add(s2, "\nkind: "@);
    search::lemma_occurs_add(s3, job::kind_text(ex.kind));
    search::lemma_occurs_add(s4, "\ntitle: "@);
    search::lemma_occurs_add(s5, or_empty(ex.title));
    search::lemma_occurs_add(s6, "\nsource_url: "@);
    search::lemma_occurs_add(s7, or_empty(ex.source_url));
    search::lemma_occurs_add(s8, "\nexisting_projects: "@);
    search::lemma_occurs_add(s9, list);
    search::lemma_occurs_add(s10, "\nextract_notes: "@);
    search::lemma_occurs_add(s11, noted);
    search::lemma_occurs_add(s12, "\n\n--- BEGIN CONTENT ---\n"@);
    search::lemma_occurs_add(s13, text);
    search::lemma_occurs_add(s14, end);
    search::lemma_occurs_end(s0, "\nsource_path: "@, j.source_path);
    search::lemma_occurs_end(s2, "\nkind: "@, job::kind_text(ex.kind));
    search::lemma_occurs_end(s4, "\ntitle: "@, or_empty(ex.title));
    search::lemma_occurs_end(s6, "\nsource_url: "@, or_empty(ex.source_url));
    assert forall|i: int| 0 <= i < projects.len() implies search::occurs(
        all,
        #[trigger] projects[i],
    ) by {
        search::lemma_joined_has(projects, ", "@, i);
    }
    assert forall|i: int| 0 <= i < ex.notes.len() implies search::occurs(
        all,
        #[trigger] ex.notes[i],
    ) by {
        search::lemma_joined_has(ex.notes, "; "@, i);
    }
    lemma_content(s12, ex.text, max);
}

/// The text stands between its marks.
proof fn lemma_content(front: Seq<char>, body: Seq<char>, max: int)
    requires
        0 <= max,
    ensures
        ({
            let all = front + "\n\n--- BEGIN CONTENT ---\n"@ + extract::truncated(body, max)
                + "\n--- END CONTENT ---\n"@;
            &&& body.len() <= max ==> search::occurs(
                all,
                "\n--- BEGIN CONTENT ---\n"@ + body + "\n--- END CONTENT ---\n"@,
            )
            &&& body.len() > max ==> search::occurs(
                all,
                "\n--- BEGIN CONTENT ---\n"@ + body.take(max),
            )
        }),
{
    let begin = "\n--- BEGIN CONTENT ---\n"@;
    let end = "\n--- END CONTENT ---\n"@;
    assert("\n\n--- BEGIN CONTENT ---\n"@ == "\n"@ + begin) by {
        reveal_strlit("\n\n--- BEGIN CONTENT ---\n");
        reveal_strlit("\n--- BEGIN CONTENT ---\n");
        reveal_strlit("\n");
    }
    if body.len() <= max {
        lemma_marked(front, "\n"@, begin, body, Seq::empty(), end);
        assert(body + Seq::<char>::empty() == body);
    } else {
        lemma_marked(front, "\n"@, begin, body.take(max), "\n\n…[truncated for length]\n"@, end);
    }
}

proof fn lemma_marked(
    front: Seq<char>,
    line: Seq<char>,
    begin: Seq<char>,
    body: Seq<char>,
    cut: Seq<char>,
    end: Seq<char>,
)
    ensures
        search::occurs(front + (line + begin) + (body + cut) + end, begin + body),
        cut.len() == 0 ==> search::occurs(
            front + (line + begin) + (body + cut) + end,
            begin + body + end,
        ),
{
    let all = front + (line + begin) + (body + cut) + end;
    let none = Seq::<char>::empty();
    search::lemma_has_middle(front + line, begin + body, cut + end);
    assert(all == (front + line) + (begin + body) + (cut + end));
    if cut.len() == 0 {
        search::lemma_has_middle(front + line, begin + body + end, none);
        assert(all == (front + line) + (begin + body + end) + none);
    }
}

/// A source that was dropped into the vault is moved away under its own name with the job in
/// front of it, to `raw/processed`, when its job is over.
pub proof fn dropped_sources_are_moved(p: PipelineView, name: Seq<char>)
    requires
        paths::plain_name(name),
        p.job.source_path == paths::under(
            paths::under(paths::under(p.root, "raw"@), "incoming"@),
            name,
        ),
    ensures
        p.moves() == seq![
            EffectView::Move(
                p.job.source_path,
                paths::under(
                    paths::under(paths::under(p.root, "raw"@), "processed"@),
                    ids::uuid_text(p.job.id) + "_"@ + name,
                ),
            ),
        ],
{
    let incoming = vault::two_below(p.root, "raw"@, "incoming"@);
    paths::lemma_components_under(incoming, name);
    paths::lemma_name_under(incoming, name);
}

/// A source that lies elsewhere stays where it is: one whose path leads elsewhere in one of
/// the places that lead to `raw/incoming`.
pub proof fn other_sources_stay(p: PipelineView, k: int)
    requires
        ({
            let a = paths::full_components(p.job.source_path);
            let b = paths::full_components(
                paths::under(paths::under(p.root, "raw"@), "incoming"@),
            );
            0 <= k < b.len() && (k < a.len() ==> a[k] != b[k])
        }),
    ensures
        p.moves().len() == 0,
{
    let a = paths::full_components(p.job.source_path);
    let b = paths::full_components(vault::two_below(p.root, "raw"@, "incoming"@));
    if b.len() <= a.len() {
        assert(a.take(b.len() as int)[k] == a[k]);
    }
}

/// The turn writes the note of an item without Grok: the note holds the text that was
/// extracted, it has the title of the item, and its project is named after what can be told
/// from the item itself.
pub open spec fn notes_the_text(
    root: Seq<char>,
    ex: ExtractedView,
    effects: Seq<EffectView>,
    done: JobView,
    now: Timestamp,
) -> bool {
    let guess = extract::guessed_title(ex.title, ex.source_url, ex.text);
    let title = match ex.title {
        Some(t) => t,
        None => "Research note"@,
    };
    let dir = paths::under(
        paths::under(paths::under(root, "wiki"@), "projects"@),
        slug::slug_of(guess),
    );
    let file = now.compact_date_text() + "-"@ + slug::slug_of(title) + ".md"@;
    &&& forall|i: int|
        0 <= i < effects.len() ==> match #[trigger] effects[i] {
            EffectView::WriteFile(path, body) => path == paths::under(dir, file) && (ex.text.len()
                <= 12_000 ==> search::occurs(body, ex.text)) && (ex.text.len() > 12_000
                ==> search::occurs(body, ex.text.take(12_000))),
            EffectView::Project(d, note, _, link) => d == dir && note == paths::under(
                dir,
                "_project.md"@,
            ) && search::occurs(link, slug::slug_of(guess)) && search::occurs(link, guess),
            EffectView::AppendSource(note, f, t, _) => note == paths::under(dir, "_project.md"@)
                && f == file && t == title,
            EffectView::Put => true,
            _ => false,
        }
    &&& exists|i: int| 0 <= i < effects.len() && #[trigger] effects[i] is WriteFile
    &&& exists|i: int| 0 <= i < effects.len() && #[trigger] effects[i] is Project
    &&& exists|i: int| 0 <= i < effects.len() && #[trigger] effects[i] is AppendSource
    &&& done.status == JobStatus::Done
    &&& done.project_slug == Some(slug::slug_of(guess))
    &&& done.note_path == Some(paths::under(dir, file))
    &&& done.title == Some(title)
}

proof fn lemma_noted(p: PipelineView, ex: ExtractedView, now: Timestamp, end: Timestamp)
    ensures
        ({
            let (w, effects, _) = writing(p, ex, None, now);
            notes_the_text(p.root, ex, effects, stepped(w, EventView::Written, end).0.job, now)
        }),
{
    let effects = writing(p, ex, None, now).1;
    let guess = extract::guessed_title(ex.title, ex.source_url, ex.text);
    let j = p.job.moved(JobStatus::Writing, now);
    assert(effects[1] is Project);
    assert(effects[2] is WriteFile);
    assert(effects[3] is AppendSource);
    notes::the_extract_is_quoted(j, ex, notes::summary_text(ex.text), now.date_text());
    vault::projects_are_named(slug::slug_of(guess), guess, now.date_text());
}

/// Without an answer of Grok the item still becomes a note, which holds its text.
pub proof fn without_an_answer_the_text_is_kept(
    p: PipelineView,
    ex: ExtractedView,
    now: Timestamp,
    end: Timestamp,
)
    requires
        p.stage == StageView::Ask(ex),
    ensures
        ({
            let (w, turn) = stepped(p, EventView::Answer(None), now);
            &&& turn is Some
            &&& turn.unwrap().1 is Written
            &&& notes_the_text(
                p.root,
                ex,
                turn.unwrap().0,
                stepped(w, EventView::Written, end).0.job,
                now,
            )
        }),
{
    lemma_noted(p, ex, now, end);
}

/// Where Grok is not to be used the item still becomes a note, which holds its text.
pub proof fn without_grok_the_text_is_kept(
    p: PipelineView,
    ex: ExtractedView,
    projects: Seq<Seq<char>>,
    now: Timestamp,
    end: Timestamp,
)
    requires
        p.stage == StageView::Route(ex),
        p.backend == AiBackend::QueueOnly,
    ensures
        ({
            let (w, turn) = stepped(p, EventView::Projects(projects), now);
            &&& turn is Some
            &&& turn.unwrap().1 is Written
            &&& notes_the_text(
                p.root,
                ex,
                turn.unwrap().0,
                stepped(w, EventView::Written, end).0.job,
                now,
            )
        }),
{
    lemma_noted(p, ex, now, end);
}

/// What a turn does not find out stays on record: the hash of the content from the first turn
/// on, what was extracted from the second, and project and note come with the last.
pub proof fn what_is_recorded_stays(p: PipelineView, e: EventView, now: Timestamp)
    requires
        fits(p.stage, e),
    ensures
        ({
            let q = stepped(p, e, now).0;
            &&& !(e is Source) ==> q.hash == p.hash && q.job.content_sha256 == p.job.content_sha256
            &&& e matches EventView::Source(data, _) ==> q.job.content_sha256 == Some(q.hash)
                && q.hash == bytes::hex_of(hash::sha256_digest(data))
            &&& !(e is Extracted) ==> q.job.source_url == p.job.source_url && q.job.kind
                == p.job.kind && q.job.metadata_json == p.job.metadata_json
                && q.job.extracted_text_path == p.job.extracted_text_path
            &&& !(e is Extracted) && !(e is Written) ==> q.job.title == p.job.title
            &&& !(e is Written) ==> q.job.project_slug == p.job.project_slug && q.job.note_path
                == p.job.note_path
        }),
{
}

/// A note is written before it is listed, below a project that exists by then; and the last
/// turn moves the source first, records its hash, and stores the finished job at the end.
pub proof fn things_are_done_in_order(p: PipelineView, e: EventView, now: Timestamp)
    requires
        fits(p.stage, e),
        stepped(p, e, now).1 is Some,
    ensures
        ({
            let f = stepped(p, e, now).1.unwrap().0;
            let q = stepped(p, e, now).0;
            &&& q.stage is Write ==> f.len() == 4 && f[0] is Put && f[1] is Project && f[2] is WriteFile
                && f[3] is AppendSource
            &&& p.stage is Write ==> f.len() == p.moves().len() + 2 && f.take(
                p.moves().len() as int,
            ) == p.moves() && f[f.len() - 2] == EffectView::Mark(p.hash) && f.last() is Put
            &&& p.stage is Extract ==> f.len() == 2 && f[0] is WriteFile && f[1] is Put
        }),
{
    let f = stepped(p, e, now).1.unwrap().0;
    if p.stage is Write {
        assert(f.take(p.moves().len() as int) == p.moves());
    }
}

/// As many jobs are worked off at once as there are, or as the limit allows where that is
/// less.
pub proof fn the_limit_is_kept(done: nat, open: nat, limit: Option<usize>)
    requires
        done + open <= usize::MAX,
        limit matches Some(n) ==> done <= n,
    ensures
        limit is None ==> drained(done, open, limit) == done + open,
        limit matches Some(n) ==> drained(done, open, limit) == if done + open <= n {
            done + open
        } else {
            n as nat
        },
    decreases open,
{
    if open > 0 && drains_on(done as usize, limit) {
        the_limit_is_kept(done + 1, (open - 1) as nat, limit);
    }
}

} // verus!
