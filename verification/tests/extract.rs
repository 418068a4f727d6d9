use research_ingest::command::ProgramOutput;
use research_ingest::extract::{
    extract_clip, extract_html, extract_pdf, extract_plain, extract_route, extracted_from_payload,
    heuristic_project, looks_like_text, require_readable, strip_tags, truncate_chars, url_host,
    BrowserPayload, Route,
};
use research_ingest::job::ContentKind;
use research_ingest::media::{
    extract_image, extract_media, ffmpeg_result, image_plan, is_direct_whisper_input, probe_plan,
    run_transcript, transcript_plan, uuid_simple, ImagePlan, Transcript,
};
use research_ingest::tools::{ResolvedTools, ToolProbe, ToolsConfig};

fn some(s: &str) -> Option<String> {
    Some(s.to_string())
}

fn payload() -> BrowserPayload {
    BrowserPayload {
        title: some("T"),
        url: some("https://e.org"),
        selection: None,
        page_markdown: None,
        page_text: None,
        image_url: None,
        content_type: None,
        captured_at: None,
        extra: None,
    }
}

fn tools() -> ResolvedTools {
    let mut t = ToolsConfig::default().resolve(&ToolProbe::new());
    t.tesseract = some("/bin/tess");
    t.ffmpeg = some("/bin/ffmpeg");
    t.ffprobe = some("/bin/ffprobe");
    t.whisper = some("/bin/whisper");
    t.whisper_model = some("/m/ggml.bin");
    t
}

fn out(success: bool, stdout: &str, stderr: &str) -> ProgramOutput {
    ProgramOutput {
        success,
        code: Some(if success { 0 } else { 1 }),
        stdout: stdout.as_bytes().to_vec(),
        stderr: stderr.as_bytes().to_vec(),
    }
}

#[test]
fn truncate_works() {
    let s = truncate_chars("abcdef", 3);
    assert!(s.starts_with("abc"));
    assert!(s.contains("truncated"));
}

#[test]
fn truncation_marks_what_was_cut() {
    assert_eq!(truncate_chars("abc", 3), "abc");
    assert_eq!(truncate_chars("äöü", 2), "äö\n\n…[truncated for length]\n");
    assert_eq!(truncate_chars("", 0), "");
}

#[test]
fn routes_of_files() {
    assert_eq!(extract_route("a.pdf"), (ContentKind::Pdf, Route::Pdf));
    assert_eq!(extract_route("a.png").1, Route::Image);
    assert_eq!(extract_route("a.mp4").1, Route::Media);
    assert_eq!(extract_route("a.mp3").1, Route::Media);
    assert_eq!(extract_route("a.html").1, Route::Html);
    assert_eq!(extract_route("a.json").1, Route::Clip);
    assert_eq!(extract_route("a.xyz"), (ContentKind::Unknown, Route::Clip));
    assert_eq!(extract_route("a.md"), (ContentKind::Markdown, Route::Plain));
    assert_eq!(extract_route("a.txt").1, Route::Plain);
}

#[test]
fn envelopes() {
    let mut p = payload();
    p.selection = some("sel");
    p.page_markdown = some(" ");
    p.page_text = some("text");
    p.image_url = some("i.png");
    p.content_type = some("page");
    let e = extracted_from_payload(p.clone());
    assert_eq!(e.text, "## Selection\n\nsel\n\n## Image URL\n\ni.png");
    assert_eq!(e.notes, ["content_type=page"]);
    assert_eq!(e.kind, ContentKind::UrlClip);
    assert_eq!((e.title.as_deref(), e.source_url.as_deref()), (Some("T"), Some("https://e.org")));
    p.page_markdown = None;
    p.selection = some("\n");
    assert_eq!(extracted_from_payload(p).text, "## Page text\n\ntext\n\n## Image URL\n\ni.png");
    let mut q = payload();
    q.page_markdown = some("md");
    assert_eq!(extracted_from_payload(q).text, "## Page (Markdown)\n\nmd");
    assert_eq!(extracted_from_payload(payload()).text, "");
}

#[test]
fn plain_files_and_clips() {
    let e = extract_plain("/x/a.md", ContentKind::Markdown, "# Hello\n\nworld".to_string());
    assert!(e.text.contains("Hello"));
    assert_eq!(e.title.as_deref(), Some("a"));
    assert!(e.notes.is_empty());
    let c = extract_clip("/x/a.json", ContentKind::UrlClip, "{}".to_string(), Some(payload()));
    assert_eq!(c.title.as_deref(), Some("T"));
    let c = extract_clip("/x/a.bin", ContentKind::Unknown, "plain".to_string(), None);
    assert_eq!(c.kind, ContentKind::Text);
    let raw = "\u{1}".repeat(9);
    let c = extract_clip("/x/a.bin", ContentKind::Unknown, raw, None);
    assert_eq!(c.kind, ContentKind::Unknown);
    let c = extract_clip("/x/a.bin", ContentKind::Unknown, String::new(), None);
    assert_eq!(c.kind, ContentKind::Unknown);
    assert_eq!(extract_pdf("/x/p.pdf", "t".to_string()).notes, ["pdf-extract"]);
}

#[test]
fn text_is_told_from_bytes() {
    assert!(looks_like_text("a"));
    assert!(!looks_like_text(""));
    assert!(looks_like_text(&"\u{1}".repeat(7)));
    assert!(!looks_like_text(&"\u{1}".repeat(8)));
    assert!(looks_like_text(&"\t\n\r".repeat(20)));
    assert!(looks_like_text(&format!("{}{}", "a".repeat(512), "\u{1}".repeat(9))));
}

#[test]
fn tags_are_stripped() {
    assert_eq!(strip_tags("<p>a  <b>b</b>\n c</p>"), "a b c");
    assert_eq!(strip_tags("a<b"), "a");
    assert_eq!(strip_tags("a > b"), "a b");
    assert_eq!(strip_tags("<a<b>c>d"), "cd");
    let e = extract_html("/x/a.html", "<h1>T</h1>");
    assert_eq!(e.text, "T");
    assert_eq!(e.notes, ["html tags stripped with a simple filter"]);
}

#[test]
fn guessed_projects() {
    let g = |t: Option<&str>, u: Option<&str>, b: &str| heuristic_project(t, u, b);
    let pair = |a: &str, b: &str| (a.to_string(), b.to_string());
    assert_eq!(
        g(Some("video"), None, "## Transcript\n\n(no)\nThe lift was modernised in nineteen ninety."),
        pair("the-lift-was-modernised-in-nineteen-ninety", "The lift was modernised in nineteen ninety.")
    );
    assert_eq!(g(Some(" My Title "), None, ""), pair("my-title", "My Title"));
    assert_eq!(
        g(Some("clip"), Some("https://www.www.example.org/a/b"), ""),
        pair("example-org", "example.org")
    );
    assert_eq!(g(None, Some("ftp://x"), "{json}\n## Some heading"), pair("some-heading", "Some heading"));
    assert_eq!(g(Some("ab"), None, "short"), pair("inbox", "Inbox"));
    assert_eq!(url_host("http://a.b"), some("a.b"));
    assert_eq!(url_host("mailto:x"), None);
    assert_eq!(url_host("https://"), some(""));
}

#[test]
fn only_files_are_read() {
    assert_eq!(require_readable("/a", true, true), Ok(()));
    assert_eq!(require_readable("/a", false, false), Err("missing file /a".to_string()));
    assert_eq!(require_readable("/a", true, false), Err("not a file /a".to_string()));
}

#[test]
fn images() {
    let mut t = tools();
    match image_plan("/x/i.png", &t) {
        ImagePlan::Run(c) => {
            assert_eq!(c.program, "/bin/tess");
            assert_eq!(c.args, ["/x/i.png", "stdout", "-l", "eng", "--psm", "3"]);
        }
        ImagePlan::Finished(_) => panic!("not run"),
    }
    t.tesseract = None;
    match image_plan("/x/i.png", &t) {
        ImagePlan::Finished(e) => {
            assert_eq!(e.notes, ["tesseract not found"]);
            assert!(e.text.starts_with("(Image file: /x/i.png. Install tesseract"));
        }
        ImagePlan::Run(_) => panic!("run"),
    }
    t.enable_ocr = false;
    match image_plan("/x/i.png", &t) {
        ImagePlan::Finished(e) => assert_eq!(e.text, "(Image file: /x/i.png. OCR disabled.)"),
        ImagePlan::Run(_) => panic!("run"),
    }
    let e = extract_image("/x/i.png", "eng", "/bin/tess", &out(true, " read \n", ""));
    assert_eq!(e.text, "read");
    assert_eq!(e.notes, ["ocr=tesseract lang=eng bin=/bin/tess"]);
    let e = extract_image("/x/i.png", "eng", "/bin/tess", &out(true, " \n", ""));
    assert_eq!(e.text, "(OCR returned empty text.)");
    let e = extract_image("/x/i.png", "eng", "/bin/tess", &out(false, "", "bad \n"));
    assert_eq!(e.text, "(OCR failed for /x/i.png.)\nbad \n");
    assert_eq!(e.notes, ["tesseract failed: bad"]);
}

#[test]
fn recordings() {
    let mut t = tools();
    let plan = probe_plan("/x/a.mp3", &t).unwrap();
    assert_eq!(plan.program, "/bin/ffprobe");
    assert_eq!(plan.args.last().unwrap(), "/x/a.mp3");
    let ok = Ok(Some(Transcript { body: " hi ".to_string(), notes: vec!["n".to_string()] }));
    let e = extract_media("/x/a.mp3", ContentKind::Audio, &t, &Some(out(true, "{}\n", "")), &ok);
    assert_eq!(
        e.text,
        "## Media metadata (ffprobe)\n\n```json\n{}\n```\n\n## Transcript\n\nhi"
    );
    assert_eq!(e.notes, ["ffprobe=/bin/ffprobe", "n"]);
    let bad = Err("oops".to_string());
    let e = extract_media("/x/a.mp3", ContentKind::Audio, &t, &Some(out(false, "", "no\n")), &bad);
    assert_eq!(e.text, "## Transcript\n\n(Transcript failed: oops)");
    assert_eq!(e.notes, ["ffprobe failed: no", "transcript error: oops"]);
    t.ffprobe = None;
    assert!(probe_plan("/x/a.mp3", &t).is_none());
    let e = extract_media("/x/a.mp3", ContentKind::Audio, &t, &None, &Ok(None));
    assert_eq!(
        e.text,
        "(Media file: /x/a.mp3. Install ffmpeg + whisper-cli + model for transcripts.)"
    );
    assert_eq!(e.notes, ["ffprobe not found", "transcript skipped"]);
}

#[test]
fn transcripts_are_planned() {
    let mut t = tools();
    t.whisper_threads = 4;
    t.transcript_max_secs = 90;
    let p = transcript_plan("/x/a.mp4", ContentKind::Video, &t, "/s", "7-8").unwrap().unwrap();
    assert_eq!(p.work, "/s/tmp");
    assert_eq!(p.wav_path, "/s/tmp/7-8.wav");
    assert_eq!(p.txt_path, "/s/tmp/7-8-out.txt");
    let f = p.ffmpeg.unwrap();
    assert_eq!(
        f.args,
        [
            "-y", "-i", "/x/a.mp4", "-t", "90", "-ar", "16000", "-ac", "1", "-c:a", "pcm_s16le",
            "/s/tmp/7-8.wav"
        ]
    );
    assert_eq!(
        p.whisper.args,
        [
            "-m", "/m/ggml.bin", "-f", "/s/tmp/7-8.wav", "-l", "en", "-otxt", "-of",
            "/s/tmp/7-8-out", "-t", "4"
        ]
    );
    assert_eq!(p.notes, ["whisper=/bin/whisper", "model=/m/ggml.bin", "ffmpeg=extract-audio"]);
    let p = transcript_plan("/x/a.mp3", ContentKind::Audio, &t, "/s", "7").unwrap().unwrap();
    assert_eq!(p.notes[2], "ffmpeg=normalize");
    t.ffmpeg = None;
    let p = transcript_plan("/x/a.mp3", ContentKind::Audio, &t, "/s", "7").unwrap().unwrap();
    assert!(p.ffmpeg.is_none());
    assert_eq!(p.whisper.args[3], "/x/a.mp3");
    assert_eq!(p.notes.len(), 2);
    assert_eq!(
        transcript_plan("/x/a.m4a", ContentKind::Audio, &t, "/s", "7").unwrap_err(),
        "ffmpeg required to extract audio from /x/a.m4a"
    );
    assert_eq!(
        transcript_plan("/x/a.md", ContentKind::Text, &t, "/s", "7").unwrap_err(),
        "not media"
    );
    t.whisper_model = None;
    assert!(transcript_plan("/x/a.mp3", ContentKind::Audio, &t, "/s", "7").unwrap().is_none());
    t.enable_transcript = false;
    assert!(transcript_plan("/x/a.mp3", ContentKind::Audio, &t, "/s", "7").unwrap().is_none());
    assert!(is_direct_whisper_input("a.OGG") && !is_direct_whisper_input("a.m4a"));
    assert_eq!(uuid_simple(12, 34), "12-34");
    assert_eq!(ffmpeg_result(&out(true, "", ""), "/w", true), Ok(()));
    assert_eq!(
        ffmpeg_result(&out(false, "", " x "), "/w", true),
        Err("ffmpeg extract failed: x".to_string())
    );
    assert_eq!(
        ffmpeg_result(&out(true, "", ""), "/w", false),
        Err("ffmpeg did not write /w".to_string())
    );
}

#[test]
fn transcripts_are_cleaned() {
    let n = || vec!["w".to_string()];
    let t = run_transcript(n(), " written \n", &out(false, "", "")).unwrap();
    assert_eq!(t.body, "written");
    assert_eq!(t.notes, ["w", "transcript_chars=10"]);
    let printed = "whisper_init\n[00:00 --> 00:03]  one \nmain: x\n[00:03 --> 00:05] two\n";
    let t = run_transcript(n(), "", &out(true, printed, "")).unwrap();
    assert_eq!(t.body, "one two");
    let t = run_transcript(n(), " ", &out(true, "a --> b\nmain: c\nd", "")).unwrap();
    assert_eq!(t.body, "a --> b\nd");
    let t = run_transcript(n(), "", &out(true, "plain", "")).unwrap();
    assert_eq!(t.body, "plain");
    let t = run_transcript(n(), "", &out(true, " ", "")).unwrap();
    assert_eq!(t.body, "(empty transcript)");
    assert_eq!(t.notes, ["w", "transcript_chars=1", "transcript empty"]);
    assert_eq!(
        run_transcript(n(), "", &out(false, "", " broke\n")).unwrap_err(),
        "whisper failed: broke"
    );
}
