use research_ingest::clock::Timestamp;
use research_ingest::command::ProgramOutput;
use research_ingest::config::{AiBackend, Config, GrokSessionConfig};
use research_ingest::extract::Extracted;
use research_ingest::grok::{
    extract_json_block, first_line, grok_answer, grok_run, ingest_prompt, judge_answer,
    load_system_prompt, parse_ai_result, prompt_candidates, prompt_path, prompt_path_in, truncate,
    AiIngestResult, Reading, Verdict, DEFAULT_INGEST_PROMPT,
};
use research_ingest::hash::file_sha256;
use research_ingest::job::{ContentKind, IngestJob, JobStatus};
use research_ingest::notes::{
    append_source_link, build_heuristic_note, build_heuristic_note_at, build_note_from_ai,
    build_note_from_ai_at, escape_yaml, summary_heuristic, write_extract_file,
};
use research_ingest::process::{ai_payload, may_drain, Ask, Effect, Event, Pipeline, Stage};
use research_ingest::queue::JobQueue;

const ID: u128 = 0x0123_4567_89ab_cdef_0123_4567_89ab_cdef;
const ID_TEXT: &str = "01234567-89ab-cdef-0123-456789abcdef";

fn now() -> Timestamp {
    Timestamp { secs: 1_700_000_000, nanos: 0 }
}

fn some(s: &str) -> Option<String> {
    Some(s.to_string())
}

fn job(path: &str) -> IngestJob {
    IngestJob::new_at(path.to_string(), ID, Timestamp { secs: 1, nanos: 2 })
}

fn cfg(backend: AiBackend) -> Config {
    let mut c = Config::default_in(Some("/h"));
    c.vault_path = "/v".to_string();
    c.ai_backend = backend;
    c
}

fn extracted() -> Extracted {
    Extracted {
        title: some("My \"T\""),
        source_url: some("https://e.org/x"),
        text: "short\nA line that is long enough to summarise.\n".to_string(),
        kind: ContentKind::Markdown,
        notes: vec!["a \"b\"".to_string(), "c\n".to_string()],
    }
}

fn ai() -> AiIngestResult {
    AiIngestResult {
        project_slug: "Lift Work".to_string(),
        project_title: "Lift work".to_string(),
        note_title: "A note".to_string(),
        summary: "Sum".to_string(),
        entities: vec!["E1".to_string(), "E2".to_string()],
        markdown: "Body".to_string(),
        tags: vec!["x".to_string(), "y".to_string()],
    }
}

fn puts(effects: &[Effect]) -> usize {
    effects.iter().filter(|e| matches!(e, Effect::Put)).count()
}

#[test]
fn a_job_runs_through_with_grok() {
    let mut p = Pipeline::new(&cfg(AiBackend::GrokSession), job("/v/raw/incoming/a.md"));
    let t = p.step_at(Event::Source(b"abc".to_vec(), Vec::new()), now()).unwrap();
    assert_eq!(p.job.status, JobStatus::Extracting);
    assert_eq!(p.job.content_sha256, Some(file_sha256(b"abc")));
    assert!(matches!(t.ask, Ask::Extract) && t.effects.len() == 1 && puts(&t.effects) == 1);

    let t = p.step_at(Event::Extracted(extracted()), now()).unwrap();
    assert_eq!(p.job.title.as_deref(), Some("My \"T\""));
    assert_eq!(p.job.metadata_json.as_deref(), Some("[\"a \\\"b\\\"\",\"c\\n\"]"));
    let kept = format!("/v/raw/extracts/{ID_TEXT}.md");
    assert_eq!(p.job.extracted_text_path.as_deref(), Some(kept.as_str()));
    match &t.effects[0] {
        Effect::WriteFile(path, body) => {
            assert_eq!(path, &kept);
            assert_eq!(
                body,
                &format!("---\njob_id: \"{ID_TEXT}\"\ntitle: \"My \\\"T\\\"\"\nsource_url: \"https://e.org/x\"\nkind: \"Markdown\"\n---\n\nshort\nA line that is long enough to summarise.\n\n")
            );
        }
        _ => panic!("no extract"),
    }
    assert!(matches!(t.effects[1], Effect::Put) && matches!(t.ask, Ask::Projects));

    let t = p.step_at(Event::Projects(vec!["p".to_string(), "q".to_string()]), now()).unwrap();
    assert_eq!(p.job.status, JobStatus::AwaitingAi);
    match t.ask {
        Ask::Ai(payload) => assert_eq!(
            payload,
            format!("job_id: {ID_TEXT}\nsource_path: /v/raw/incoming/a.md\nkind: Markdown\ntitle: My \"T\"\nsource_url: https://e.org/x\nexisting_projects: p, q\nextract_notes: a \"b\"; c\n\n\n--- BEGIN CONTENT ---\nshort\nA line that is long enough to summarise.\n\n--- END CONTENT ---\n")
        ),
        _ => panic!("grok was not asked"),
    }

    let t = p.step_at(Event::Answer(Some(ai())), now()).unwrap();
    assert_eq!(p.job.status, JobStatus::Writing);
    assert!(matches!(t.ask, Ask::Written));
    assert!(matches!(t.effects[0], Effect::Put));
    match &t.effects[1] {
        Effect::Project(plan) => assert_eq!(plan.dir, "/v/wiki/projects/lift-work"),
        _ => panic!("no project"),
    }
    match &t.effects[2] {
        Effect::WriteFile(path, body) => {
            assert_eq!(path, "/v/wiki/projects/lift-work/20231114-a-note.md");
            assert!(body.contains("tags: [\"x\", \"y\"]\n"));
        }
        _ => panic!("no note"),
    }
    match &t.effects[3] {
        Effect::AppendSource(md, file, title, summary) => {
            assert_eq!(md, "/v/wiki/projects/lift-work/_project.md");
            assert_eq!((file.as_str(), title.as_str(), summary.as_str()), ("20231114-a-note.md", "A note", "Sum"));
        }
        _ => panic!("no source"),
    }

    let t = p.step_at(Event::Written, now()).unwrap();
    assert_eq!(p.job.status, JobStatus::Done);
    assert_eq!(p.job.project_slug.as_deref(), Some("lift-work"));
    assert_eq!(p.job.note_path.as_deref(), Some("/v/wiki/projects/lift-work/20231114-a-note.md"));
    assert_eq!(p.job.title.as_deref(), Some("A note"));
    match (&t.effects[0], &t.effects[1]) {
        (Effect::Move(from, to), Effect::Mark(h)) => {
            assert_eq!(from, "/v/raw/incoming/a.md");
            assert_eq!(to, &format!("/v/raw/processed/{ID_TEXT}_a.md"));
            assert_eq!(h, &file_sha256(b"abc"));
        }
        _ => panic!("not moved and recorded"),
    }
    assert!(matches!(t.effects[2], Effect::Put) && matches!(t.ask, Ask::Nothing));
    assert!(matches!(p.stage, Stage::Over));
    assert_eq!((p.job.id, p.job.source_path.as_str()), (ID, "/v/raw/incoming/a.md"));
    assert_eq!(p.job.created_at, Timestamp { secs: 1, nanos: 2 });
    assert_eq!(p.job.updated_at, now());
}

#[test]
fn without_grok_nothing_is_asked() {
    let mut p = Pipeline::new(&cfg(AiBackend::QueueOnly), job("/elsewhere/a.md"));
    p.step(Event::Source(b"abc".to_vec(), Vec::new())).unwrap();
    p.step(Event::Extracted(extracted())).unwrap();
    let t = p.step(Event::Projects(Vec::new())).unwrap();
    assert!(matches!(t.ask, Ask::Written));
    match &t.effects[2] {
        Effect::WriteFile(path, body) => {
            assert!(path.starts_with("/v/wiki/projects/my-t/") && path.ends_with("-my-t.md"));
            assert!(body.contains("tags: [\"ingest\", \"heuristic\"]"));
        }
        _ => panic!("no note"),
    }
    let t = p.step(Event::Written).unwrap();
    assert!(matches!(t.effects[0], Effect::Mark(_)) && t.effects.len() == 2);
}

#[test]
fn missing_and_seen_sources_are_skipped() {
    let mut p = Pipeline::new(&cfg(AiBackend::GrokSession), job("/v/raw/incoming/a.md"));
    let t = p.step_at(Event::Missing, now()).unwrap();
    assert_eq!((p.job.status, p.job.error.as_deref()), (JobStatus::Skipped, Some("source missing")));
    assert!(matches!(t.ask, Ask::Nothing) && t.effects.len() == 1);

    let seen = JobQueue::mark_hash_seen(&file_sha256(b"abc"));
    let mut p = Pipeline::new(&cfg(AiBackend::GrokSession), job("/v/raw/incoming/a.md"));
    let t = p.step_at(Event::Source(b"abc".to_vec(), seen.clone()), now()).unwrap();
    assert_eq!(
        (p.job.status, p.job.error.as_deref()),
        (JobStatus::Skipped, Some("duplicate content hash"))
    );
    assert!(matches!(t.effects[0], Effect::Put) && matches!(t.effects[1], Effect::Move(_, _)));

    let mut p = Pipeline::new(&cfg(AiBackend::GrokSession), job("/other/a.md"));
    let t = p.step_at(Event::Source(b"abc".to_vec(), seen), now()).unwrap();
    assert_eq!(t.effects.len(), 1);

    let mut p = Pipeline::new(&cfg(AiBackend::GrokSession), job("/other/a.md"));
    assert!(p.step_at(Event::Source(b"abc".to_vec(), vec![0xff, 10]), now()).is_err());
    assert!(p.job.content_sha256.is_some());
}

#[test]
fn an_answer_may_fail() {
    let mut p = Pipeline::new(&cfg(AiBackend::GrokSession), job("/o/a.md"));
    p.step_at(Event::Source(b"abc".to_vec(), Vec::new()), now()).unwrap();
    let mut ex = extracted();
    ex.notes.clear();
    p.step_at(Event::Extracted(ex), now()).unwrap();
    assert!(p.job.metadata_json.is_none());
    p.step_at(Event::Projects(Vec::new()), now()).unwrap();
    let t = p.step_at(Event::Answer(None), now()).unwrap();
    match &t.effects[3] {
        Effect::AppendSource(_, _, title, summary) => {
            assert_eq!(title, "My \"T\"");
            assert_eq!(summary, "A line that is long enough to summarise.");
        }
        _ => panic!("no source"),
    }
}

#[test]
fn draining_has_a_limit() {
    assert!(may_drain(5, None));
    assert!(may_drain(1, Some(2)));
    assert!(!may_drain(2, Some(2)));
    assert!(!may_drain(0, Some(0)));
}

#[test]
fn notes_from_grok() {
    let ex = extracted();
    let note = build_note_from_ai_at(&job("/s/a.md"), &ex, &ai(), now());
    assert_eq!(
        note,
        format!("---\ntitle: \"A note\"\njob_id: \"{ID_TEXT}\"\nsource: \"https://e.org/x\"\ntags: [\"x\", \"y\"]\ncreated: 2023-11-14\n---\n\n# A note\n\n> Sum\n\n## Entities\n\n- E1\n- E2\n\nBody\n\n## Source\n\n- File: `/s/a.md`\n- URL: https://e.org/x\n- Job: `{ID_TEXT}`\n")
    );
    let mut a = ai();
    a.tags.clear();
    a.entities.clear();
    a.markdown = "Body\n".to_string();
    let mut ex = extracted();
    ex.source_url = None;
    assert_eq!(
        build_note_from_ai_at(&job("/s/a.md"), &ex, &a, now()),
        format!("---\ntitle: \"A note\"\njob_id: \"{ID_TEXT}\"\ncreated: 2023-11-14\n---\n\n# A note\n\n> Sum\n\nBody\n\n## Source\n\n- File: `/s/a.md`\n- Job: `{ID_TEXT}`\n")
    );
    assert!(build_note_from_ai(&job("/s/a.md"), &ex, &a).contains("created: 2"));
}

#[test]
fn notes_without_grok() {
    let mut ex = extracted();
    ex.title = None;
    ex.text = "x".repeat(12_001);
    let note = build_heuristic_note_at(&job("/s/a.md"), &ex, "Sum", now());
    assert!(note.starts_with(&format!(
        "---\ntitle: \"Research note\"\njob_id: \"{ID_TEXT}\"\ntags: [\"ingest\", \"heuristic\"]\ncreated: 2023-11-14\n---\n\n# Research note\n\n> Sum\n\n## Extract\n\nxxx"
    )));
    assert!(note.contains("x\n\n…[truncated for length]\n\n\n## Source\n\n- File: `/s/a.md`\n- URL: https://e.org/x\n\n> Note: Grok session was not used"));
    assert!(build_heuristic_note(&job("/s/a.md"), &ex, "S").contains("> S\n"));
    assert_eq!(summary_heuristic("a\nb"), "Extracted source material.");
    assert_eq!(summary_heuristic(&format!("  {}  ", "z".repeat(300))), "z".repeat(240));
    assert_eq!(escape_yaml("a\\\"b"), "a\\\\\\\"b");
    ex.source_url = None;
    assert!(!write_extract_file(ID, &ex).contains("source_url"));
}

#[test]
fn sources_are_listed() {
    let one = append_source_link("# P\n\n## Sources\n\n## Notes\n", "n.md", "T", "Sum").unwrap();
    assert_eq!(one, "# P\n\n## Sources\n- [[n|T]] — Sum\n\n## Notes\n");
    assert!(append_source_link(&one, "n.md", "T", "Sum").is_none());
    assert_eq!(
        append_source_link("", "n.md.md", "T", &"s".repeat(130)).unwrap(),
        format!("\n## Sources\n\n- [[n|T]] — {}\n", "s".repeat(120))
    );
}

#[test]
fn payloads_are_truncated() {
    let mut ex = extracted();
    ex.text = "abcdef".to_string();
    ex.title = None;
    ex.notes.clear();
    let p = ai_payload(&job("/s"), &ex, &Vec::new(), 3);
    assert!(p.contains("\ntitle: \n"));
    assert!(p.contains("BEGIN CONTENT ---\nabc\n\n…[truncated for length]\n\n--- END"));
}

fn out(success: bool, code: Option<i32>, stdout: &str, stderr: &str) -> ProgramOutput {
    ProgramOutput {
        success,
        code,
        stdout: stdout.as_bytes().to_vec(),
        stderr: stderr.as_bytes().to_vec(),
    }
}

#[test]
fn grok_runs_without_a_key() {
    let mut g = GrokSessionConfig::default();
    let r = grok_run(&g, "/p.md");
    assert_eq!(r.command.program, "grok");
    assert_eq!(
        r.command.args,
        ["--prompt-file", "/p.md", "--output-format", "plain", "--verbatim", "--yolo", "--effort", "high"]
    );
    assert_eq!(r.env_remove, ["XAI_API_KEY"]);
    assert_eq!(r.env_set, [("RESEARCH_INGEST_AI".to_string(), "1".to_string())]);
    assert_eq!(r.timeout_secs, 600);
    g.yolo = false;
    g.effort = None;
    g.model = some("m");
    g.extra_args = vec!["--x".to_string()];
    assert_eq!(grok_run(&g, "/p.md").command.args[5..], ["-m", "m", "--x"]);
}

#[test]
fn answers_of_grok() {
    assert_eq!(grok_answer(&out(true, Some(0), " hi", "")), Ok(" hi".to_string()));
    assert_eq!(
        grok_answer(&out(true, Some(0), " \n", "e")),
        Err("grok returned empty stdout; stderr=e".to_string())
    );
    assert_eq!(
        grok_answer(&out(false, Some(-2), "", &"e".repeat(801))),
        Err(format!("grok exited with status {:?}: {}…", Some(-2), "e".repeat(800)))
    );
    assert_eq!(
        grok_answer(&out(false, None, "x", "e")),
        Err("grok exited with status None: e".to_string())
    );
    assert_eq!(truncate("abc", 3), "abc");
    assert_eq!(truncate("abcd", 3), "abc…");
}

#[test]
fn json_in_answers() {
    assert_eq!(extract_json_block("x ```json\n {\"a\":1} \n``` y"), some("{\"a\":1}"));
    assert_eq!(extract_json_block("x {\"a\":{}} y"), some("{\"a\":{}}"));
    assert_eq!(extract_json_block("```json\n{1}"), some("{1}"));
    assert_eq!(extract_json_block("} {"), None);
    assert_eq!(extract_json_block("none"), None);
    match parse_ai_result("```json\n{}\n```") {
        Reading::Json(j, c) => assert_eq!((j.as_str(), c.as_str()), ("{}", "parse AI JSON: {}")),
        Reading::Wrapped(_) => panic!("wrapped"),
    }
    match parse_ai_result(" {\"a\": ") {
        Reading::Json(j, c) => assert_eq!((j.as_str(), c.as_str()), ("{\"a\":", "parse AI JSON root")),
        Reading::Wrapped(_) => panic!("wrapped"),
    }
    match parse_ai_result("\n\n  free text\nmore") {
        Reading::Wrapped(a) => {
            assert_eq!(a.project_slug, "inbox");
            assert_eq!(a.summary, "  free text");
            assert_eq!(a.markdown, "\n\n  free text\nmore");
            assert_eq!(a.tags, ["ingest"]);
        }
        Reading::Json(_, _) => panic!("json"),
    }
    assert_eq!(first_line(" \n"), "summary");
    assert_eq!(first_line(&"l".repeat(300)), "l".repeat(200));
}

#[test]
fn failed_answers_are_asked_for_again() {
    assert!(matches!(judge_answer(1, 2, Ok(ai())), Verdict::Accept(_)));
    assert!(matches!(judge_answer(1, 2, Err("e".to_string())), Verdict::Retry));
    assert!(matches!(judge_answer(2, 2, Err("e".to_string())), Verdict::Retry));
    match judge_answer(3, 2, Err("e".to_string())) {
        Verdict::GiveUp(e) => assert_eq!(e, "e"),
        _ => panic!("not given up"),
    }
    assert!(matches!(judge_answer(1, 0, Err("e".to_string())), Verdict::GiveUp(_)));
}

#[test]
fn prompts() {
    let p = ingest_prompt("SYS", "PAY");
    assert!(p.starts_with("SYS\n\n---\n\n# Input to process\n\nPAY\n\n---\n\nReply with a single JSON object only"));
    assert!(p.ends_with("tags (array of strings).\nproject_slug must be lowercase kebab-case.\n"));
    assert_eq!(prompt_path_in("/s", ID), format!("/s/prompts/prompt-{ID_TEXT}.md"));
    assert!(prompt_path() != prompt_path());
    assert_eq!(prompt_candidates("/c"), ["prompts/ingest_system.md", "/c/ingest_system.md"]);
    assert_eq!(load_system_prompt(&vec![None, some("b"), some("c")]), "b");
    assert_eq!(load_system_prompt(&vec![None]), DEFAULT_INGEST_PROMPT);
    assert!(DEFAULT_INGEST_PROMPT.contains("\n   - short summary\n   - key points\n"));
}
