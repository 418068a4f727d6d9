use research_ingest::clock::{Timestamp, LAST_SECOND};
use research_ingest::config::{
    config_dir, config_dir_in, default_vault_in, default_vault_path, expand_tilde, expand_tilde_in,
    resolve_vault, state_dir, state_dir_in, AiBackend, Config, GrokSessionConfig,
};
use research_ingest::extract::{extract_plain, extract_route, Route};
use research_ingest::hash::file_sha256;
use research_ingest::ids::short_id;
use research_ingest::job::{ContentKind, IngestJob, JobStatus};
use research_ingest::queue::JobQueue;
use research_ingest::slug::slugify;
use research_ingest::tools::{
    shell_escape, which, which_script, LookUp, ResolvedTools, ToolProbe, ToolsConfig,
};
use research_ingest::vault::VaultPaths;

fn stamp(secs: i64, nanos: u32) -> Timestamp {
    Timestamp { secs, nanos }
}

fn some(s: &str) -> Option<String> {
    Some(s.to_string())
}

fn job(path: &str, id: u128, secs: i64, nanos: u32, status: JobStatus) -> IngestJob {
    let mut j = IngestJob::new_at(path.to_string(), id, stamp(secs, nanos));
    j.status = status;
    j
}

fn ids(jobs: &[IngestJob]) -> Vec<u128> {
    jobs.iter().map(|j| j.id).collect()
}

#[test]
fn default_backend_is_session() {
    assert_eq!(Config::default().ai_backend, AiBackend::GrokSession);
}

#[test]
fn expand_tilde_home() {
    let p = std::path::PathBuf::from(expand_tilde("~/Documents/x"));
    assert!(!p.to_string_lossy().starts_with('~'));
    assert!(p.ends_with("Documents/x"));
}

#[test]
fn slugify_basic() {
    assert_eq!(slugify("Elevator Modernization!"), "elevator-modernization");
    assert_eq!(slugify("  "), "inbox");
}

#[test]
fn resolve_defaults() {
    let t = ToolsConfig::default().resolve(&ToolProbe::new());
    assert!(t.enable_ocr);
    assert!(t.enable_transcript);
}

#[test]
fn put_get_list() {
    let q = JobQueue::open("/tmp/ri-queue".to_string());
    let job = IngestJob::new("/tmp/a.md".to_string());
    let id = job.id;
    assert!(JobQueue::is_job_file(&q.job_path(id)));
    let listed = JobQueue::list(vec![job]);
    assert_eq!(listed[0].id, id);
    assert_eq!(listed.len(), 1);
}

#[test]
fn ensure_layout_creates_tree() {
    let v = VaultPaths::new("/tmp/ri-vault".to_string());
    let plan = v.ensure_layout();
    assert!(plan.dirs.contains(&v.incoming()));
    assert!(plan.files.iter().any(|f| f.path == v.index_md()));
}

#[test]
fn extract_plain_md() {
    let (kind, route) = extract_route("/tmp/ri-ex/a.md");
    assert_eq!(route, Route::Plain);
    let ex = extract_plain("/tmp/ri-ex/a.md", kind, "# Hello\n\nworld".to_string());
    assert!(ex.text.contains("Hello"));
}

#[test]
fn recorded_text_is_seen() {
    let mut log = JobQueue::mark_hash_seen("grüße\rx");
    log.extend(JobQueue::mark_hash_seen("日本"));
    log.extend(JobQueue::mark_hash_seen(""));
    for s in ["grüße\rx", "日本", ""] {
        assert_eq!(JobQueue::hash_seen(&log, s), Ok(true));
    }
    assert_eq!(JobQueue::hash_seen(&log, "日"), Ok(false));
}

#[test]
fn the_last_job_stored_is_listed() {
    let q = JobQueue::open("/q".to_string());
    let puts = [
        job("/a", 1, 5, 0, JobStatus::Pending),
        job("/b", 2, 3, 0, JobStatus::Pending),
        job("/a", 1, 5, 0, JobStatus::Done),
    ];
    let mut files = std::collections::BTreeMap::new();
    files.insert("/q/jobs/stray.json".to_string(), None);
    for j in &puts {
        files.insert(q.job_path(j.id), Some(j.clone()));
    }
    let read: Vec<IngestJob> = files
        .into_iter()
        .filter(|(path, _)| JobQueue::is_job_file(path))
        .filter_map(|(_, j)| j)
        .collect();
    let listed = JobQueue::list(read);
    assert_eq!(ids(&listed), [2, 1]);
    assert_eq!(listed[1].status, JobStatus::Done);
}

#[test]
fn directories_and_identifiers() {
    assert!(Config::config_file_path().contains("research-ingest"));
    assert!(JobQueue::open_default().root().contains("research-ingest"));
    assert!(ToolProbe::new().state_dir.contains("research-ingest"));
    let id = IngestJob::new("/a".to_string()).id;
    assert_eq!(((id >> 76) & 0xf, (id >> 62) & 0x3), (4, 2));
}

#[test]
fn slugs_of_free_text() {
    assert_eq!(slugify("  A  --  b__C  "), "a-b-c");
    assert_eq!(slugify("Grüße aus Köln"), "gr-e-aus-k-ln");
    assert_eq!(slugify("---"), "inbox");
    assert_eq!(slugify("elevator-modernization"), "elevator-modernization");
    assert_eq!(slugify("Inbox"), "inbox");
    assert_eq!(slugify(&"x".repeat(80)), "x".repeat(64));
    assert_eq!(slugify(&format!("{}-b", "a".repeat(63))), format!("{}-", "a".repeat(63)));
}

#[test]
fn defaults_of_the_settings() {
    let c = Config::default_in(Some("/home/u"));
    assert_eq!(c.vault_path, "/home/u/Documents/Obsidian Vault");
    assert_eq!(c.debounce_ms, 400);
    assert_eq!(c.max_extract_chars, 48_000);
    assert_eq!(c.listen_addr, "127.0.0.1:18765");
    assert!(c.listen_http && c.process_existing_on_start && c.ingest_prompt_path.is_none());
    let g = GrokSessionConfig::default();
    assert_eq!((g.binary.as_str(), g.timeout_secs, g.max_retries, g.yolo), ("grok", 600, 2, true));
    assert_eq!(g.effort.as_deref(), Some("high"));
    assert!(g.model.is_none() && g.extra_args.is_empty());
    assert_eq!(AiBackend::default(), AiBackend::GrokSession);
    assert_eq!(default_vault_in(None), "Obsidian Vault");
    let t = ToolsConfig::default();
    assert_eq!((t.ocr_lang.as_str(), t.whisper_lang.as_str()), ("eng", "en"));
}

#[test]
fn directories_of_the_project() {
    assert_eq!(config_dir_in(None), ".config/research-ingest");
    assert_eq!(state_dir_in(None), ".local/share/research-ingest");
    assert_eq!(config_dir_in(some("/c")), "/c");
    assert_eq!(state_dir_in(some("/s")), "/s");
    assert!(config_dir().ends_with("research-ingest"));
    assert!(state_dir().ends_with("research-ingest"));
    assert!(config_dir() != state_dir());
    assert_eq!(Config::config_file_path(), format!("{}/config.toml", config_dir()));
    assert!(default_vault_path().ends_with("Obsidian Vault"));
    let q = JobQueue::open_default();
    assert_eq!(q.root(), format!("{}/queue", state_dir()));
}

#[test]
fn tilde_stands_for_home() {
    assert_eq!(expand_tilde_in("~/a", Some("/h")), "/h/a");
    assert_eq!(expand_tilde_in("~", Some("/h")), "/h");
    assert_eq!(expand_tilde_in("~u/a", Some("/h")), "~u/a");
    assert_eq!(expand_tilde_in("/x/~", Some("/h")), "/x/~");
    assert_eq!(expand_tilde_in("~/a", None), "~/a");
    assert_eq!(expand_tilde_in("~//etc", Some("/h")), "/etc");
    let twice = expand_tilde_in(&expand_tilde_in("~/a", Some("/h")), Some("/h"));
    assert_eq!(twice, "/h/a");
}

#[test]
fn vault_from_command_line_or_settings() {
    let c = Config::default_in(Some("/h")).with_vault("/v");
    assert_eq!(c.vault_path, "/v");
    assert_eq!(c.listen_addr, "127.0.0.1:18765");
    assert_eq!(resolve_vault(Some("/w"), None), "/w");
    assert_eq!(resolve_vault(None, Some(c)), "/v");
    assert_eq!(resolve_vault(None, None), default_vault_path());
    assert_eq!(Config::load_or_default(None).vault_path, default_vault_path());
}

#[test]
fn kinds_of_content() {
    for (p, k) in [
        ("a.txt", ContentKind::Text),
        ("a.LOG", ContentKind::Text),
        ("a.md", ContentKind::Markdown),
        ("a.HTM", ContentKind::Html),
        ("x/a.pdf", ContentKind::Pdf),
        ("a.JPeG", ContentKind::Image),
        ("a.tiff", ContentKind::Image),
        ("a.mkv", ContentKind::Video),
        ("a.flac", ContentKind::Audio),
        ("a.json", ContentKind::UrlClip),
        ("a", ContentKind::Unknown),
        (".md", ContentKind::Unknown),
        ("a.md/", ContentKind::Markdown),
        ("a.tar.gz", ContentKind::Unknown),
    ] {
        assert_eq!(ContentKind::from_path(p), k, "{p}");
    }
    assert_eq!(ContentKind::UrlClip.name(), format!("{:?}", ContentKind::UrlClip));
    assert_eq!(JobStatus::AwaitingAi.name(), format!("{:?}", JobStatus::AwaitingAi));
}

#[test]
fn life_of_a_job() {
    let before = chrono::Utc::now().timestamp();
    let mut j = IngestJob::new("/tmp/a.md".to_string());
    assert_eq!(j.status, JobStatus::Pending);
    assert_eq!(j.kind, ContentKind::Markdown);
    assert_eq!(j.created_at, j.updated_at);
    assert!(j.created_at.secs >= before && j.created_at.nanos < 1_000_000_000);
    let other = IngestJob::new("/tmp/a.md".to_string());
    assert!(other.id != j.id);
    assert_eq!((j.id >> 76) & 0xf, 4);
    assert_eq!((j.id >> 62) & 0x3, 2);
    let (id, made) = (j.id, j.created_at);
    j.set_status(JobStatus::Extracting);
    assert_eq!(j.status, JobStatus::Extracting);
    j.fail("broken".to_string());
    assert_eq!(j.status, JobStatus::Failed);
    assert_eq!(j.error.as_deref(), Some("broken"));
    j.touch();
    assert_eq!((j.id, j.created_at), (id, made));
    assert!(j.updated_at.secs >= made.secs);
}

#[test]
fn written_times() {
    let t = stamp(1_700_000_000, 5);
    assert_eq!(t.date(), "2023-11-14");
    assert_eq!(t.compact_date(), "20231114");
    assert_eq!(t.compact(), "20231114T221320Z");
    assert_eq!(t.rfc3339(), "2023-11-14T22:13:20.000000005+00:00");
    assert_eq!(stamp(0, 0).date(), "1970-01-01");
    assert_eq!(LAST_SECOND, chrono::DateTime::<chrono::Utc>::MAX_UTC.timestamp());
    let last = stamp(LAST_SECOND, 999_999_999);
    assert!(last.compact().starts_with('+'));
    assert!(last.rfc3339().ends_with("+00:00"));
}

#[test]
fn hashes_and_identifiers() {
    assert_eq!(
        file_sha256(b"abc"),
        "ba7816bf8f01cfea414140de5dae2223b00361a396177a9cb410ff61f20015ad"
    );
    assert_eq!(
        file_sha256(b""),
        "e3b0c44298fc1c149afbf4c8996fb92427ae41e4649b934ca495991b7852b855"
    );
    assert_eq!(short_id(0x0123_4567_89ab_cdef_0123_4567_89ab_cdef), "01234567");
    let q = JobQueue::open("/q".to_string());
    assert_eq!(
        q.job_path(0x0123_4567_89ab_cdef_0123_4567_89ab_cdef),
        "/q/jobs/01234567-89ab-cdef-0123-456789abcdef.json"
    );
    assert_eq!(q.tmp_path(1), "/q/jobs/00000000-0000-0000-0000-000000000001.json.tmp");
    assert!(q.job_path(1) != q.job_path(2));
    assert_eq!(q.jobs_dir(), "/q/jobs");
    assert_eq!(q.seen_path(), "/q/seen_hashes.txt");
    assert!(JobQueue::is_job_file(&q.job_path(1)));
    assert!(!JobQueue::is_job_file(&q.tmp_path(1)));
    assert!(!JobQueue::is_job_file("/q/jobs/readme"));
}

#[test]
fn jobs_are_listed_oldest_first() {
    let p = JobStatus::Pending;
    let read = vec![
        job("c", 3, 30, 0, p),
        job("a", 1, 10, 0, p),
        job("b", 2, 20, 7, p),
        job("d", 4, 20, 7, p),
        job("e", 5, 20, 6, p),
    ];
    assert_eq!(ids(&JobQueue::list(read)), vec![1, 5, 2, 4, 3]);
    assert!(JobQueue::list(Vec::new()).is_empty());
}

#[test]
fn jobs_by_status() {
    let read = vec![
        job("a", 1, 30, 0, JobStatus::Done),
        job("b", 2, 20, 0, JobStatus::Failed),
        job("c", 3, 10, 0, JobStatus::Done),
    ];
    assert_eq!(ids(&JobQueue::list_by_status(read, JobStatus::Done)), vec![3, 1]);
}

#[test]
fn half_done_jobs_come_before_pending_ones() {
    let read = || {
        vec![
            job("a", 1, 10, 0, JobStatus::Pending),
            job("b", 2, 20, 0, JobStatus::Writing),
            job("c", 3, 30, 0, JobStatus::AwaitingAi),
            job("d", 4, 40, 0, JobStatus::Extracting),
            job("e", 5, 5, 0, JobStatus::Done),
            job("f", 6, 1, 0, JobStatus::Failed),
        ]
    };
    let mut left = read();
    let mut order = Vec::new();
    loop {
        let again: Vec<IngestJob> = left.iter().map(|j| j.clone()).collect();
        match JobQueue::next_pending(again) {
            Some(j) => {
                order.push(j.id);
                left.retain(|k| k.id != j.id);
            }
            None => break,
        }
    }
    assert_eq!(order, vec![4, 3, 2, 1]);
    assert_eq!(left.len(), 2);
}

#[test]
fn open_jobs_are_found_by_source() {
    let read = || {
        vec![
            job("/v/a.md", 1, 10, 0, JobStatus::Done),
            job("/v//a.md", 2, 20, 0, JobStatus::Failed),
            job("/v/a.md", 3, 30, 0, JobStatus::Pending),
        ]
    };
    assert_eq!(JobQueue::find_by_source(read(), "/v/a.md").unwrap().id, 2);
    assert_eq!(JobQueue::find_by_source(read(), "/v/./a.md/").unwrap().id, 2);
    assert!(JobQueue::find_by_source(read(), "v/a.md").is_none());
}

#[test]
fn seen_hashes() {
    let mut log: Vec<u8> = Vec::new();
    assert_eq!(JobQueue::hash_seen(&log, "aa"), Ok(false));
    for h in ["aa", "bb", "aa"] {
        log.extend(JobQueue::mark_hash_seen(h));
    }
    assert_eq!(log, b"aa\nbb\naa\n");
    assert_eq!(JobQueue::hash_seen(&log, "bb"), Ok(true));
    assert_eq!(JobQueue::hash_seen(&log, "a"), Ok(false));
    assert_eq!(JobQueue::hash_seen(&b"x\r\ny".to_vec(), "x"), Ok(true));
    assert_eq!(JobQueue::hash_seen(&b"x\r\ny\r".to_vec(), "y"), Ok(false));
    let bad = [b"aa\n".to_vec(), vec![0xff, b'\n'], b"bb\n".to_vec()].concat();
    assert_eq!(JobQueue::hash_seen(&bad, "aa"), Ok(true));
    assert!(JobQueue::hash_seen(&bad, "bb").is_err());
}

fn probe() -> ToolProbe {
    ToolProbe {
        home: some("/h"),
        state_dir: "/s".to_string(),
        files: Vec::new(),
        found: Vec::new(),
        model_entries: Vec::new(),
    }
}

#[test]
fn tools_are_resolved() {
    let mut c = ToolsConfig::default();
    c.tesseract = some("~/bin/tess");
    c.whisper = some("mywhisper");
    c.whisper_model = some("~/gone.bin");
    let mut p = probe();
    let t = c.resolve(&p);
    assert!(t.tesseract.is_none() && t.ffmpeg.is_none() && t.whisper_model.is_none());
    p.files = vec!["/h/bin/tess".to_string(), "/s/models/ggml-tiny.bin".to_string()];
    p.found = vec![
        ("whisper".to_string(), "/usr/bin/whisper".to_string()),
        ("ffmpeg".to_string(), "/usr/bin/ffmpeg".to_string()),
    ];
    let t = c.resolve(&p);
    assert_eq!(t.tesseract.as_deref(), Some("/h/bin/tess"));
    assert_eq!(t.ffmpeg.as_deref(), Some("/usr/bin/ffmpeg"));
    assert_eq!(t.whisper.as_deref(), Some("/usr/bin/whisper"));
    assert_eq!(t.whisper_model.as_deref(), Some("/s/models/ggml-tiny.bin"));
    p.found.push(("mywhisper".to_string(), "/opt/w".to_string()));
    assert_eq!(c.resolve(&p).whisper.as_deref(), Some("/opt/w"));
    p.files.clear();
    p.model_entries = vec![
        "/s/models/notes.txt".to_string(),
        "/s/models/ggml-x.txt".to_string(),
        "/s/models/ggml-any.bin".to_string(),
    ];
    assert_eq!(c.resolve(&p).whisper_model.as_deref(), Some("/s/models/ggml-any.bin"));
    p.files = c.files_to_find(&p);
    assert_eq!(c.resolve(&p).whisper_model.as_deref(), Some("/h/gone.bin"));
    assert_eq!(p.files.len(), 3 + 7);
    assert_eq!(p.files[1], "/h/mywhisper".replace("/h/", ""));
    assert_eq!(
        c.programs_to_find(),
        ["~/bin/tess", "mywhisper", "tesseract", "ffmpeg", "ffprobe", "whisper-cli", "whisper"]
    );
}

fn bare_tools() -> ResolvedTools {
    ToolsConfig::default().resolve(&probe())
}

#[test]
fn doctor_says_what_is_missing() {
    let mut t = bare_tools();
    let lines = t.doctor_lines_in("/s");
    assert_eq!(lines[0], "ocr: on tesseract=(missing)");
    assert_eq!(lines[4], "transcript: on whisper=(missing)");
    assert_eq!(lines.len(), 7 + 4);
    assert_eq!(
        lines[9],
        "WARN: no whisper model; place ggml-*.bin in /s/models or set tools.whisper_model"
    );
    t.enable_ocr = false;
    t.enable_transcript = false;
    let lines = t.doctor_lines_in("/s");
    assert_eq!(lines.len(), 7);
    assert_eq!(lines[0], "ocr: off tesseract=(missing)");
    assert_eq!(t.doctor_lines().len(), 7);
}

#[test]
fn programs_are_looked_up() {
    assert_eq!(shell_escape("whisper-cli"), "whisper-cli");
    assert_eq!(shell_escape("a b"), "'a b'");
    assert_eq!(shell_escape("it's"), "'it'\\''s'");
    assert_eq!(shell_escape(""), "");
    assert_eq!(which_script("a b"), "command -v 'a b'");
    let out = |success: bool, s: &str| {
        Some(LookUp { success, stdout: s.as_bytes().to_vec() })
    };
    assert_eq!(which("/bin/sh", true, &None).as_deref(), Some("/bin/sh"));
    assert_eq!(which("/bin/sh", false, &None), None);
    assert_eq!(which("sh", true, &out(true, " /bin/sh\n")).as_deref(), Some("/bin/sh"));
    assert_eq!(which("sh", false, &out(true, "\n")), None);
    assert_eq!(which("sh", false, &out(false, "/bin/sh")), None);
}
