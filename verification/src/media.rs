//! Images and recordings: which programs read them, and what is made of the result.

use vstd::prelude::*;
use vstd::string::*;

use crate::command::{CommandPlan, ProgramOutput};
use crate::extract::{glue, is_blank, Extracted, ExtractedView};
use crate::job::ContentKind;
use crate::paths;
use crate::search;
use crate::split;
use crate::text;
use crate::tools::ResolvedTools;

verus! {

/// What is made of an image: at once, or with the help of a program.
#[derive(Debug, Clone)]
pub enum ImagePlan {
    /// Nothing has to be run.
    Finished(Extracted),
    /// The program that reads the image.
    Run(CommandPlan),
}

/// An image with the given text and note.
pub open spec fn image_extract(path: Seq<char>, body: Seq<char>, note: Seq<char>) -> ExtractedView {
    ExtractedView {
        title: paths::stem_of(path),
        source_url: None,
        text: body,
        kind: ContentKind::Image,
        notes: seq![note],
    }
}

/// An image with the given text and note.
fn image_with(path: &str, body: String, note: String) -> (r: Extracted)
    ensures
        r@ == image_extract(path@, body@, note@),
{
    let mut notes: Vec<String> = Vec::new();
    text::push_text(&mut notes, note);
    assert(text::views(notes@) == seq![note@]);
    Extracted {
        title: paths::file_stem(path),
        source_url: None,
        text: body,
        kind: ContentKind::Image,
        notes,
    }
}

/// The plan for an image is right.
pub open spec fn is_image_plan(r: ImagePlan, path: Seq<char>, tools: ResolvedTools) -> bool {
    match r {
        ImagePlan::Finished(e) => if !tools.enable_ocr {
            e@ == image_extract(
                path,
                "(Image file: "@ + path + ". OCR disabled.)"@,
                "ocr disabled in config"@,
            )
        } else {
            tools.tesseract is None && e@ == image_extract(
                path,
                "(Image file: "@ + path
                    + ". Install tesseract for OCR, e.g. `nix profile add nixpkgs#tesseract`.)"@,
                "tesseract not found"@,
            )
        },
        ImagePlan::Run(c) => tools.enable_ocr && tools.tesseract is Some && c.is(
            tools.tesseract.unwrap()@,
            seq![path, "stdout"@, "-l"@, tools.ocr_lang@, "--psm"@, "3"@],
        ),
    }
}

/// How an image is read: not at all where OCR is off or Tesseract is missing.
pub fn image_plan(path: &str, tools: &ResolvedTools) -> (r: ImagePlan)
    ensures
        is_image_plan(r, path@, *tools),
{
    if !tools.enable_ocr {
        let mut body = glue("(Image file: ", path);
        body.append(". OCR disabled.)");
        return ImagePlan::Finished(image_with(path, body, "ocr disabled in config".to_owned()));
    }
    match &tools.tesseract {
        None => {
            let mut body = glue("(Image file: ", path);
            body.append(". Install tesseract for OCR, e.g. `nix profile add nixpkgs#tesseract`.)");
            ImagePlan::Finished(image_with(path, body, "tesseract not found".to_owned()))
        },
        Some(tess) => {
            let mut args: Vec<String> = Vec::new();
            text::push_text(&mut args, path.to_owned());
            text::push_text(&mut args, "stdout".to_owned());
            text::push_text(&mut args, "-l".to_owned());
            text::push_text(&mut args, tools.ocr_lang.clone());
            text::push_text(&mut args, "--psm".to_owned());
            text::push_text(&mut args, "3".to_owned());
            assert(text::views(args@) == seq![
                path@,
                "stdout"@,
                "-l"@,
                tools.ocr_lang@,
                "--psm"@,
                "3"@,
            ]);
            ImagePlan::Run(CommandPlan { program: tess.clone(), args })
        },
    }
}

/// What is made of what Tesseract said.
pub open spec fn ocr_extract(
    path: Seq<char>,
    lang: Seq<char>,
    tesseract: Seq<char>,
    out: ProgramOutput,
) -> ExtractedView {
    let err = out.err_text();
    let body = text::trimmed(out.out_text());
    if !out.success {
        image_extract(
            path,
            "(OCR failed for "@ + path + ".)\n"@ + err,
            "tesseract failed: "@ + text::trimmed(err),
        )
    } else {
        image_extract(
            path,
            if body.len() == 0 {
                "(OCR returned empty text.)"@
            } else {
                body
            },
            "ocr=tesseract lang="@ + lang + " bin="@ + tesseract,
        )
    }
}

/// What is made of what Tesseract said of an image.
pub fn extract_image(path: &str, lang: &str, tesseract: &str, out: &ProgramOutput) -> (r: Extracted)
    ensures
        r@ == ocr_extract(path@, lang@, tesseract@, *out),
{
    if !out.success {
        let err = out.complaint();
        let mut body = glue("(OCR failed for ", path);
        body.append(".)\n");
        body.append(err.as_str());
        return image_with(path, body, glue("tesseract failed: ", text::trim(err.as_str())));
    }
    let all = out.printed();
    let body = text::trim(all.as_str());
    let mut note = glue("ocr=tesseract lang=", lang);
    note.append(" bin=");
    note.append(tesseract);
    let shown = if body.is_empty() {
        "(OCR returned empty text.)".to_owned()
    } else {
        body.to_owned()
    };
    image_with(path, shown, note)
}

/// The arguments with which `ffprobe` describes a recording.
pub open spec fn probe_args(path: Seq<char>) -> Seq<Seq<char>> {
    seq!["-v"@, "quiet"@, "-print_format"@, "json"@, "-show_format"@, "-show_streams"@, path]
}

/// The program that describes a recording, if there is one.
pub fn probe_plan(path: &str, tools: &ResolvedTools) -> (r: Option<CommandPlan>)
    ensures
        match r {
            Some(c) => tools.ffprobe is Some && c.is(tools.ffprobe.unwrap()@, probe_args(path@)),
            None => tools.ffprobe is None,
        },
{
    match &tools.ffprobe {
        Some(p) => {
            let mut args: Vec<String> = Vec::new();
            text::push_text(&mut args, "-v".to_owned());
            text::push_text(&mut args, "quiet".to_owned());
            text::push_text(&mut args, "-print_format".to_owned());
            text::push_text(&mut args, "json".to_owned());
            text::push_text(&mut args, "-show_format".to_owned());
            text::push_text(&mut args, "-show_streams".to_owned());
            text::push_text(&mut args, path.to_owned());
            assert(text::views(args@) == probe_args(path@));
            Some(CommandPlan { program: p.clone(), args })
        },
        None => None,
    }
}

/// A transcript, and notes on how it was made.
#[derive(Debug, Clone)]
pub struct Transcript {
    pub body: String,
    pub notes: Vec<String>,
}

/// The part that describes the recording.
pub open spec fn probe_parts(out: Option<ProgramOutput>) -> Seq<Seq<char>> {
    match out {
        Some(o) => if o.success {
            seq![
                "## Media metadata (ffprobe)\n\n```json\n"@ + text::trimmed(o.out_text())
                    + "\n```"@,
            ]
        } else {
            Seq::empty()
        },
        None => Seq::empty(),
    }
}

/// The note on the description of the recording.
pub open spec fn probe_note(ffprobe: Option<Seq<char>>, out: Option<ProgramOutput>) -> Seq<char> {
    match out {
        Some(o) => if o.success {
            "ffprobe="@ + ffprobe.unwrap()
        } else {
            "ffprobe failed: "@ + text::trimmed(o.err_text())
        },
        None => "ffprobe not found"@,
    }
}

/// The part that holds the transcript, or why there is none.
pub open spec fn transcript_parts(t: Result<Option<Transcript>, String>) -> Seq<Seq<char>> {
    match t {
        Ok(Some(t)) => seq!["## Transcript\n\n"@ + text::trimmed(t.body@)],
        Ok(None) => Seq::empty(),
        Err(e) => seq!["## Transcript\n\n(Transcript failed: "@ + e@ + ")"@],
    }
}

/// The notes on the transcript.
pub open spec fn transcript_notes(t: Result<Option<Transcript>, String>) -> Seq<Seq<char>> {
    match t {
        Ok(Some(t)) => text::views(t.notes@),
        Ok(None) => seq!["transcript skipped"@],
        Err(e) => seq!["transcript error: "@ + e@],
    }
}

/// What is made of a recording.
pub open spec fn media_extract(
    path: Seq<char>,
    kind: ContentKind,
    ffprobe: Option<Seq<char>>,
    probe: Option<ProgramOutput>,
    t: Result<Option<Transcript>, String>,
) -> ExtractedView {
    let parts = probe_parts(probe) + transcript_parts(t);
    ExtractedView {
        title: paths::stem_of(path),
        source_url: None,
        text: if parts.len() == 0 {
            "(Media file: "@ + path
                + ". Install ffmpeg + whisper-cli + model for transcripts.)"@
        } else {
            split::joined(parts, "\n\n"@)
        },
        kind,
        notes: seq![probe_note(ffprobe, probe)] + transcript_notes(t),
    }
}

/// What is made of a recording, given what `ffprobe` said where it was found, and the
/// transcript or why there is none.
pub fn extract_media(
    path: &str,
    kind: ContentKind,
    tools: &ResolvedTools,
    probe: &Option<ProgramOutput>,
    transcript: &Result<Option<Transcript>, String>,
) -> (r: Extracted)
    requires
        probe is Some <==> tools.ffprobe is Some,
    ensures
        r@ == media_extract(path@, kind, text::opt_view(tools.ffprobe), *probe, *transcript),
{
    let mut notes: Vec<String> = Vec::new();
    let mut parts: Vec<String> = Vec::new();
    match probe {
        Some(o) => {
            if o.success {
                let meta = o.printed();
                let mut part = glue(
                    "## Media metadata (ffprobe)\n\n```json\n",
                    text::trim(meta.as_str()),
                );
                part.append("\n```");
                text::push_text(&mut parts, part);
                text::push_text(&mut notes, glue("ffprobe=", text::text_or(&tools.ffprobe, "")));
            } else {
                let err = o.complaint();
                text::push_text(&mut notes, glue("ffprobe failed: ", text::trim(err.as_str())));
            }
        },
        None => {
            text::push_text(&mut notes, "ffprobe not found".to_owned());
        },
    }
    assert(text::views(parts@) == probe_parts(*probe));
    assert(text::views(notes@) == seq![probe_note(text::opt_view(tools.ffprobe), *probe)]);
    match transcript {
        Ok(Some(t)) => {
            text::push_text(&mut parts, glue("## Transcript\n\n", text::trim(t.body.as_str())));
            let mut more = text::copy_list(&t.notes);
            let ghost before = notes@;
            let ghost added = more@;
            notes.append(&mut more);
            assert(text::views(notes@) == text::views(before) + text::views(added));
        },
        Ok(None) => {
            text::push_text(&mut notes, "transcript skipped".to_owned());
        },
        Err(e) => {
            text::push_text(&mut notes, glue("transcript error: ", e.as_str()));
            let mut part = glue("## Transcript\n\n(Transcript failed: ", e.as_str());
            part.append(")");
            text::push_text(&mut parts, part);
        },
    }
    assert(text::views(parts@) == probe_parts(*probe) + transcript_parts(*transcript));
    assert(text::views(notes@) == seq![probe_note(text::opt_view(tools.ffprobe), *probe)]
        + transcript_notes(*transcript));
    let body = if parts.len() == 0 {
        let mut s = glue("(Media file: ", path);
        s.append(". Install ffmpeg + whisper-cli + model for transcripts.)");
        s
    } else {
        split::join(&parts, "\n\n")
    };
    Extracted { title: paths::file_stem(path), source_url: None, text: body, kind, notes }
}

/// How a transcript is made.
#[derive(Debug, Clone)]
pub struct TranscriptPlan {
    /// The directory to work in.
    pub work: String,
    /// The program that makes the audio which Whisper hears, and the file it writes.
    pub ffmpeg: Option<CommandPlan>,
    pub wav_path: String,
    pub whisper: CommandPlan,
    /// The file that Whisper writes.
    pub txt_path: String,
    pub notes: Vec<String>,
}

/// Whisper hears files of this type as they are.
pub open spec fn direct_input(path: Seq<char>) -> bool {
    let e = paths::lower_extension(path);
    e == "wav"@ || e == "mp3"@ || e == "flac"@ || e == "ogg"@
}

/// Whether Whisper hears files of this type as they are.
pub fn is_direct_whisper_input(path: &str) -> (r: bool)
    ensures
        r == direct_input(path@),
{
    let ext = paths::extension_lower(path);
    let e = ext.as_str();
    text::same(e, "wav") || text::same(e, "mp3") || text::same(e, "flac") || text::same(e, "ogg")
}

/// The arguments with which `ffmpeg` makes 16 kHz mono audio.
pub open spec fn ffmpeg_args(input: Seq<char>, wav: Seq<char>, max_secs: u64) -> Seq<Seq<char>> {
    seq!["-y"@, "-i"@, input] + (if max_secs > 0 {
        seq!["-t"@, text::decimal_of(max_secs as nat)]
    } else {
        Seq::empty()
    }) + seq!["-ar"@, "16000"@, "-ac"@, "1"@, "-c:a"@, "pcm_s16le"@, wav]
}

/// The program that makes 16 kHz mono audio.
pub fn ffmpeg_to_wav(ffmpeg: &str, input: &str, out_wav: &str, max_secs: u64) -> (r: CommandPlan)
    ensures
        r.is(ffmpeg@, ffmpeg_args(input@, out_wav@, max_secs)),
{
    let mut args: Vec<String> = Vec::new();
    text::push_text(&mut args, "-y".to_owned());
    text::push_text(&mut args, "-i".to_owned());
    text::push_text(&mut args, input.to_owned());
    assert(text::views(args@) == seq!["-y"@, "-i"@, input@]);
    if max_secs > 0 {
        text::push_text(&mut args, "-t".to_owned());
        text::push_text(&mut args, text::decimal(max_secs));
    }
    let ghost before = text::views(args@);
    text::push_text(&mut args, "-ar".to_owned());
    text::push_text(&mut args, "16000".to_owned());
    text::push_text(&mut args, "-ac".to_owned());
    text::push_text(&mut args, "1".to_owned());
    text::push_text(&mut args, "-c:a".to_owned());
    text::push_text(&mut args, "pcm_s16le".to_owned());
    text::push_text(&mut args, out_wav.to_owned());
    assert(text::views(args@) == before + seq![
        "-ar"@,
        "16000"@,
        "-ac"@,
        "1"@,
        "-c:a"@,
        "pcm_s16le"@,
        out_wav@,
    ]);
    assert(text::views(args@) == ffmpeg_args(input@, out_wav@, max_secs));
    CommandPlan { program: ffmpeg.to_owned(), args }
}

/// Why the audio could not be made.
pub open spec fn ffmpeg_error(out: ProgramOutput, wav: Seq<char>, wav_exists: bool) -> Option<
    Seq<char>,
> {
    if !out.success {
        Some("ffmpeg extract failed: "@ + text::trimmed(out.err_text()))
    } else if !wav_exists {
        Some("ffmpeg did not write "@ + wav)
    } else {
        None
    }
}

/// Judges how `ffmpeg` ended.
pub fn ffmpeg_result(out: &ProgramOutput, wav: &str, wav_exists: bool) -> (r: Result<(), String>)
    ensures
        match r {
            Ok(_) => ffmpeg_error(*out, wav@, wav_exists) is None,
            Err(e) => ffmpeg_error(*out, wav@, wav_exists) == Some(e@),
        },
{
    if !out.success {
        let err = out.complaint();
        return Err(glue("ffmpeg extract failed: ", text::trim(err.as_str())));
    }
    if !wav_exists {
        return Err(glue("ffmpeg did not write ", wav));
    }
    Ok(())
}

/// The arguments with which Whisper makes a transcript.
pub open spec fn whisper_args(
    tools: ResolvedTools,
    model: Seq<char>,
    audio: Seq<char>,
    out_base: Seq<char>,
) -> Seq<Seq<char>> {
    seq![
        "-m"@,
        model,
        "-f"@,
        audio,
        "-l"@,
        tools.whisper_lang@,
        "-otxt"@,
        "-of"@,
        out_base,
    ] + if tools.whisper_threads > 0 {
        seq!["-t"@, text::decimal_of(tools.whisper_threads as nat)]
    } else {
        Seq::empty()
    }
}

fn whisper_command(
    tools: &ResolvedTools,
    whisper: &str,
    model: &str,
    audio: &str,
    out_base: &str,
) -> (r: CommandPlan)
    ensures
        r.is(whisper@, whisper_args(*tools, model@, audio@, out_base@)),
{
    let mut args: Vec<String> = Vec::new();
    text::push_text(&mut args, "-m".to_owned());
    text::push_text(&mut args, model.to_owned());
    text::push_text(&mut args, "-f".to_owned());
    text::push_text(&mut args, audio.to_owned());
    text::push_text(&mut args, "-l".to_owned());
    text::push_text(&mut args, tools.whisper_lang.clone());
    text::push_text(&mut args, "-otxt".to_owned());
    text::push_text(&mut args, "-of".to_owned());
    text::push_text(&mut args, out_base.to_owned());
    if tools.whisper_threads > 0 {
        text::push_text(&mut args, "-t".to_owned());
        text::push_text(&mut args, text::decimal(tools.whisper_threads as u64));
    }
    assert(text::views(args@) == whisper_args(*tools, model@, audio@, out_base@));
    CommandPlan { program: whisper.to_owned(), args }
}

/// A name for the files of one transcript: the time in milliseconds, and the process.
pub fn uuid_simple(millis: u64, process: u32) -> (r: String)
    ensures
        r@ == text::decimal_of(millis as nat) + "-"@ + text::decimal_of(process as nat),
{
    let mut s = text::decimal(millis);
    s.append("-");
    s.append(text::decimal(process as u64).as_str());
    s
}

/// Whether a transcript is wanted and can be made: it is switched on, and Whisper and
/// a model are there.
pub open spec fn can_transcribe(tools: ResolvedTools) -> bool {
    tools.enable_transcript && tools.whisper is Some && tools.whisper_model is Some
}

/// Why no transcript can be made of a file, though one is wanted.
pub open spec fn transcript_refusal(path: Seq<char>, kind: ContentKind, tools: ResolvedTools) -> Option<
    Seq<char>,
> {
    if kind != ContentKind::Audio && kind != ContentKind::Video {
        Some("not media"@)
    } else if tools.ffmpeg is None && !(kind == ContentKind::Audio && direct_input(path)) {
        Some("ffmpeg required to extract audio from "@ + path)
    } else {
        None
    }
}

impl TranscriptPlan {
    /// The plan is the one for the file, with the tools, in the state directory, under
    /// the name `id`.
    pub open spec fn is_for(
        self,
        path: Seq<char>,
        kind: ContentKind,
        tools: ResolvedTools,
        state: Seq<char>,
        id: Seq<char>,
    ) -> bool {
        let work = paths::under(state, "tmp"@);
        let wav = paths::under(work, id + ".wav"@);
        let out_base = paths::under(work, id + "-out"@);
        let model = tools.whisper_model.unwrap()@;
        let audio = if tools.ffmpeg is Some {
            wav
        } else {
            path
        };
        &&& self.work@ == work
        &&& self.wav_path@ == wav
        &&& self.txt_path@ == out_base + ".txt"@
        &&& match self.ffmpeg {
            Some(c) => tools.ffmpeg is Some && c.is(
                tools.ffmpeg.unwrap()@,
                ffmpeg_args(path, wav, tools.transcript_max_secs),
            ),
            None => tools.ffmpeg is None,
        }
        &&& self.whisper.is(
            tools.whisper.unwrap()@,
            whisper_args(tools, model, audio, out_base),
        )
        &&& text::views(self.notes@) == seq![
            "whisper="@ + tools.whisper.unwrap()@,
            "model="@ + model,
        ] + (if tools.ffmpeg is None {
            Seq::empty()
        } else if kind == ContentKind::Audio && direct_input(path) {
            seq!["ffmpeg=normalize"@]
        } else {
            seq!["ffmpeg=extract-audio"@]
        })
    }
}

/// How a transcript of a file is made, if one is wanted and can be.
pub fn transcript_plan(path: &str, kind: ContentKind, tools: &ResolvedTools, state: &str, id: &str) -> (r:
    Result<Option<TranscriptPlan>, String>)
    ensures
        match r {
            Ok(None) => !can_transcribe(*tools),
            Ok(Some(p)) => can_transcribe(*tools) && transcript_refusal(path@, kind, *tools) is None
                && p.is_for(path@, kind, *tools, state@, id@),
            Err(e) => can_transcribe(*tools) && transcript_refusal(path@, kind, *tools) == Some(e@),
        },
{
    if !tools.enable_transcript {
        return Ok(None);
    }
    let whisper = match &tools.whisper {
        Some(w) => w,
        None => {
            return Ok(None);
        },
    };
    let model = match &tools.whisper_model {
        Some(m) => m,
        None => {
            return Ok(None);
        },
    };
    let mut notes: Vec<String> = Vec::new();
    text::push_text(&mut notes, glue("whisper=", whisper.as_str()));
    text::push_text(&mut notes, glue("model=", model.as_str()));
    let ghost two = text::views(notes@);
    assert(two == seq!["whisper="@ + whisper@, "model="@ + model@]);
    let work = paths::join(state, "tmp");
    let wav_path = paths::join(work.as_str(), glue(id, ".wav").as_str());
    let out_base = paths::join(work.as_str(), glue(id, "-out").as_str());
    let txt_path = glue(out_base.as_str(), ".txt");
    if kind != ContentKind::Audio && kind != ContentKind::Video {
        return Err("not media".to_owned());
    }
    let direct = kind == ContentKind::Audio && is_direct_whisper_input(path);
    match &tools.ffmpeg {
        Some(f) => {
            let c = ffmpeg_to_wav(f.as_str(), path, wav_path.as_str(), tools.transcript_max_secs);
            if direct {
                text::push_text(&mut notes, "ffmpeg=normalize".to_owned());
            } else {
                text::push_text(&mut notes, "ffmpeg=extract-audio".to_owned());
            }
            assert(text::views(notes@) == two + if direct {
                seq!["ffmpeg=normalize"@]
            } else {
                seq!["ffmpeg=extract-audio"@]
            });
            let w = whisper_command(
                tools,
                whisper.as_str(),
                model.as_str(),
                wav_path.as_str(),
                out_base.as_str(),
            );
            Ok(Some(TranscriptPlan { work, ffmpeg: Some(c), wav_path, whisper: w, txt_path, notes }))
        },
        None => {
            if !direct {
                return Err(glue("ffmpeg required to extract audio from ", path));
            }
            let w = whisper_command(
                tools,
                whisper.as_str(),
                model.as_str(),
                path,
                out_base.as_str(),
            );
            assert(two + Seq::<Seq<char>>::empty() == two);
            Ok(Some(TranscriptPlan { work, ffmpeg: None, wav_path, whisper: w, txt_path, notes }))
        },
    }
}

/// The line is no report of Whisper on itself, or it carries a time.
pub open spec fn is_speech_line(l: Seq<char>) -> bool {
    search::occurs(l, "-->"@) || (!text::begins(l, "whisper_"@) && !text::begins(l, "system_info"@)
        && !text::begins(l, "main:"@))
}

/// The lines that are no reports of Whisper on itself.
pub open spec fn speech_lines(lines: Seq<Seq<char>>) -> Seq<Seq<char>>
    decreases lines.len(),
{
    if lines.len() == 0 {
        Seq::empty()
    } else if is_speech_line(lines.last()) {
        speech_lines(lines.drop_last()).push(lines.last())
    } else {
        speech_lines(lines.drop_last())
    }
}

/// What is said in the lines that carry a time, each with a space behind it.
pub open spec fn spoken(lines: Seq<Seq<char>>) -> Seq<char>
    decreases lines.len(),
{
    if lines.len() == 0 {
        Seq::empty()
    } else {
        let l = lines.last();
        let before = spoken(lines.drop_last());
        match search::found(l, "] "@) {
            Some(i) => if search::occurs(l, "-->"@) {
                before + text::trimmed(l.skip(i + 2)) + seq![' ']
            } else {
                before
            },
            None => before,
        }
    }
}

/// The transcript in what Whisper printed: only what is said, where lines carry times.
pub open spec fn printed_transcript(out: Seq<char>) -> Seq<char> {
    if !search::occurs(out, "-->"@) {
        out
    } else {
        let lines = split::lines_of(out);
        let said = text::trimmed(spoken(lines));
        if said.len() > 0 {
            said
        } else if speech_lines(lines).len() > 0 {
            split::joined(speech_lines(lines), "\n"@)
        } else {
            out
        }
    }
}

/// The transcript that Whisper wrote, or else the one that it printed.
pub open spec fn raw_transcript(written: Seq<char>, out: Seq<char>) -> Seq<char> {
    if text::trimmed(written).len() > 0 {
        written
    } else {
        printed_transcript(out)
    }
}

/// The transcript in what Whisper printed.
fn clean_printed(out: String) -> (r: String)
    ensures
        r@ == printed_transcript(out@),
{
    if !search::contains(out.as_str(), "-->") {
        return out;
    }
    let lines = split::lines(out.as_str());
    let ghost all = text::views(lines@);
    let mut kept: Vec<String> = Vec::new();
    let mut cleaned = String::new();
    let mut i: usize = 0;
    assert(text::views(kept@) == speech_lines(all.take(0)));
    assert(cleaned@ == spoken(all.take(0)));
    proof {
        reveal_strlit("] ");
    }
    while i < lines.len()
        invariant
            i <= lines@.len(),
            all == text::views(lines@),
            "] "@.len() == 2,
            text::views(kept@) == speech_lines(all.take(i as int)),
            cleaned@ == spoken(all.take(i as int)),
        decreases lines@.len() - i,
    {
        let l = lines[i].as_str();
        proof {
            assert(all.take(i + 1).drop_last() == all.take(i as int));
            assert(all.take(i + 1).last() == l@);
        }
        let timed = search::contains(l, "-->");
        if timed || (!text::starts_with(l, "whisper_") && !text::starts_with(l, "system_info")
            && !text::starts_with(l, "main:")) {
            text::push_text(&mut kept, l.to_owned());
        }
        if let Some(idx) = search::find(l, "] ") {
            if timed {
                let n: usize = l.unicode_len();
                assert(l@.subrange(idx + 2, n as int) == l@.skip(idx + 2));
                let ghost before = cleaned@;
                cleaned.append(text::trim(l.substring_char(idx + 2, n)));
                cleaned.push(' ');
                assert(cleaned@ == before + text::trimmed(l@.skip(idx + 2)) + seq![' ']);
            }
        }
        i = i + 1;
    }
    assert(all.take(i as int) == all);
    let said = text::trim(cleaned.as_str());
    if !said.is_empty() {
        said.to_owned()
    } else if kept.len() > 0 {
        split::join(&kept, "\n")
    } else {
        out
    }
}

/// What is noted of a transcript, and its text.
pub open spec fn finished_transcript(t: Transcript, notes: Seq<Seq<char>>, raw: Seq<char>) -> bool {
    let counted = notes.push("transcript_chars="@ + text::decimal_of(raw.len()));
    if text::trimmed(raw).len() == 0 {
        t.body@ == "(empty transcript)"@ && text::views(t.notes@) == counted.push(
            "transcript empty"@,
        )
    } else {
        t.body@ == text::trimmed(raw) && text::views(t.notes@) == counted
    }
}

/// `r` is what is made of how Whisper ended.
pub open spec fn is_run_transcript(
    r: Result<Transcript, String>,
    notes: Seq<Seq<char>>,
    written: Seq<char>,
    out: ProgramOutput,
) -> bool {
    let raw = raw_transcript(written, out.out_text());
    let said = text::trimmed(raw).len() > 0;
    match r {
        Ok(t) => (out.success || said) && finished_transcript(t, notes, raw),
        Err(e) => !out.success && !said && e@ == "whisper failed: "@ + text::trimmed(out.err_text()),
    }
}

/// What is made of how Whisper ended, given the text that it wrote to its file, if
/// any, and the notes of the plan.
pub fn run_transcript(notes: Vec<String>, written: &str, out: &ProgramOutput) -> (r: Result<
    Transcript,
    String,
>)
    ensures
        match r {
            Ok(t) => (out.success || text::trimmed(raw_transcript(written@, out.out_text())).len()
                > 0) && finished_transcript(
                t,
                text::views(notes@),
                raw_transcript(written@, out.out_text()),
            ),
            Err(e) => !out.success && text::trimmed(
                raw_transcript(written@, out.out_text()),
            ).len() == 0 && e@ == "whisper failed: "@ + text::trimmed(out.err_text()),
        },
        is_run_transcript(r, text::views(notes@), written@, *out),
{
    let raw = if is_blank(written) {
        clean_printed(out.printed())
    } else {
        written.to_owned()
    };
    let body = text::trim(raw.as_str());
    let empty = body.is_empty();
    if !out.success && empty {
        let err = out.complaint();
        return Err(glue("whisper failed: ", text::trim(err.as_str())));
    }
    let mut notes = notes;
    let n: usize = raw.as_str().unicode_len();
    text::push_text(&mut notes, glue("transcript_chars=", text::decimal(n as u64).as_str()));
    if empty {
        text::push_text(&mut notes, "transcript empty".to_owned());
        return Ok(Transcript { body: "(empty transcript)".to_owned(), notes });
    }
    Ok(Transcript { body: body.to_owned(), notes })
}

/// A recording always yields some text, and its first note says what became of
/// `ffprobe`.
pub proof fn media_always_says_something(
    path: Seq<char>,
    kind: ContentKind,
    ffprobe: Option<Seq<char>>,
    probe: Option<ProgramOutput>,
    t: Result<Option<Transcript>, String>,
)
    ensures
        media_extract(path, kind, ffprobe, probe, t).text.len() > 0,
        media_extract(path, kind, ffprobe, probe, t).notes[0] == probe_note(ffprobe, probe),
{
    reveal_strlit("(Media file: ");
    reveal_strlit("## Media metadata (ffprobe)\n\n```json\n");
    reveal_strlit("## Transcript\n\n");
    reveal_strlit("## Transcript\n\n(Transcript failed: ");
    let parts = probe_parts(probe) + transcript_parts(t);
    if parts.len() == 1 {
        assert(split::joined(parts, "\n\n"@) == parts[0]);
    } else if parts.len() > 1 {
        assert(split::joined(parts, "\n\n"@).len() >= parts.last().len());
    }
}

/// An image is read where reading is on and the program for it is known, in the language that
/// is set. Else something is said about the image all the same, with its path.
pub proof fn images_are_read_where_possible(r: ImagePlan, path: Seq<char>, tools: ResolvedTools)
    requires
        is_image_plan(r, path, tools),
    ensures
        r is Run <==> tools.enable_ocr && tools.tesseract is Some,
        r matches ImagePlan::Run(c) ==> c.program@ == tools.tesseract.unwrap()@ && text::views(
            c.args@,
        ).contains(path) && text::views(c.args@).contains(tools.ocr_lang@),
        r matches ImagePlan::Finished(e) ==> search::occurs(e@.text, path) && e@.kind
            == ContentKind::Image && e@.title == paths::stem_of(path) && e@.notes.len() == 1,
{
    match r {
        ImagePlan::Run(c) => {
            assert(text::views(c.args@)[0] == path);
            assert(text::views(c.args@)[3] == tools.ocr_lang@);
        },
        ImagePlan::Finished(e) => {
            search::lemma_has_middle("(Image file: "@, path, ". OCR disabled.)"@);
            search::lemma_has_middle(
                "(Image file: "@,
                path,
                ". Install tesseract for OCR, e.g. `nix profile add nixpkgs#tesseract`.)"@,
            );
        },
    }
}

/// What was read from an image is its text, without the white space around it; where nothing
/// was read, or reading failed, the text says so, with the complaint of the program.
pub proof fn what_was_read_is_kept(
    path: Seq<char>,
    lang: Seq<char>,
    tesseract: Seq<char>,
    out: ProgramOutput,
)
    ensures
        ({
            let e = ocr_extract(path, lang, tesseract, out);
            &&& out.success && !text::blank(out.out_text()) ==> e.text == text::trimmed(
                out.out_text(),
            )
            &&& !out.success ==> search::occurs(e.text, out.err_text()) && search::occurs(
                e.text,
                path,
            )
            &&& e.text.len() > 0
            &&& e.kind == ContentKind::Image
            &&& e.title == paths::stem_of(path)
            &&& e.source_url is None
        }),
{
    text::trimming_takes_white_space_only(out.out_text());
    reveal_strlit("(OCR returned empty text.)");
    reveal_strlit("(OCR failed for ");
    let a = "(OCR failed for "@;
    let b = ".)\n"@;
    search::lemma_occurs_itself(path);
    search::lemma_occurs_itself(out.err_text());
    search::lemma_occurs_add(a, path);
    search::lemma_occurs_add(a + path, b);
    search::lemma_occurs_add(a + path + b, out.err_text());
}

/// A recording says what is known of it: what the probe told, and the transcript or why
/// there is none. Where neither is known its path stands in the text.
pub proof fn recordings_say_what_is_known(
    path: Seq<char>,
    kind: ContentKind,
    ffprobe: Option<Seq<char>>,
    probe: Option<ProgramOutput>,
    t: Result<Option<Transcript>, String>,
)
    ensures
        ({
            let e = media_extract(path, kind, ffprobe, probe, t);
            &&& e.kind == kind
            &&& e.title == paths::stem_of(path)
            &&& e.source_url is None
            &&& probe matches Some(o) ==> (o.success ==> search::occurs(
                e.text,
                text::trimmed(o.out_text()),
            ))
            &&& t matches Ok(Some(w)) ==> search::occurs(
                e.text,
                "## Transcript\n\n"@ + text::trimmed(w.body@),
            ) && e.notes.len() == 1 + w.notes@.len() && e.notes.skip(1) == text::views(w.notes@)
            &&& t matches Err(m) ==> search::occurs(e.text, m@) && search::occurs(e.notes[1], m@)
            &&& probe is None && t == Ok::<Option<Transcript>, String>(None) ==> search::occurs(
                e.text,
                path,
            )
        }),
{
    let e = media_extract(path, kind, ffprobe, probe, t);
    let a = probe_parts(probe);
    let b = transcript_parts(t);
    let parts = a + b;
    let none = Seq::<char>::empty();
    if let Some(o) = probe {
        if o.success {
            search::lemma_joined_has(parts, "\n\n"@, 0);
            let s = text::trimmed(o.out_text());
            search::lemma_has_middle("## Media metadata (ffprobe)\n\n```json\n"@, s, "\n```"@);
            search::lemma_occurs_trans(split::joined(parts, "\n\n"@), parts[0], s);
        }
    }
    let k = a.len() as int;
    match t {
        Ok(Some(w)) => {
            assert(parts[k] == "## Transcript\n\n"@ + text::trimmed(w.body@));
            search::lemma_joined_has(parts, "\n\n"@, k);
            assert(e.notes.skip(1) == text::views(w.notes@));
        },
        Err(m) => {
            assert(parts[k] == "## Transcript\n\n(Transcript failed: "@ + m@ + ")"@);
            search::lemma_joined_has(parts, "\n\n"@, k);
            search::lemma_has_middle("## Transcript\n\n(Transcript failed: "@, m@, ")"@);
            search::lemma_occurs_trans(split::joined(parts, "\n\n"@), parts[k], m@);
            search::lemma_has_middle("transcript error: "@, m@, none);
            assert("transcript error: "@ + m@ + none == "transcript error: "@ + m@);
        },
        Ok(None) => {
            search::lemma_has_middle(
                "(Media file: "@,
                path,
                ". Install ffmpeg + whisper-cli + model for transcripts.)"@,
            );
        },
    }
}

/// What whisper wrote is the transcript, without the white space around it, and what it
/// printed counts only where it wrote nothing. Printed text without time marks is taken as
/// it is.
pub proof fn transcripts_are_what_was_said(
    t: Transcript,
    notes: Seq<Seq<char>>,
    written: Seq<char>,
    printed: Seq<char>,
)
    requires
        finished_transcript(t, notes, raw_transcript(written, printed)),
    ensures
        !text::blank(written) ==> t.body@ == text::trimmed(written),
        text::blank(written) && !search::occurs(printed, "-->"@) && !text::blank(printed)
            ==> t.body@ == text::trimmed(printed),
        t.body@.len() > 0,
        text::views(t.notes@).len() > notes.len(),
        text::views(t.notes@).take(notes.len() as int) == notes,
{
    text::trimming_takes_white_space_only(written);
    text::trimming_takes_white_space_only(printed);
    reveal_strlit("(empty transcript)");
    assert(text::views(t.notes@).take(notes.len() as int) == notes);
}

/// A line with a time mark says what stands behind the mark, and the lines say what they say
/// one after the other; a line without a mark says nothing.
pub proof fn marked_lines_are_spoken(lines: Seq<Seq<char>>, mark: Seq<char>, said: Seq<char>)
    requires
        search::found(mark + "] "@ + said, "] "@) == Some(mark.len() as int),
        search::occurs(mark, "-->"@),
    ensures
        spoken(lines.push(mark + "] "@ + said)) == spoken(lines) + text::trimmed(said) + seq![' '],
{
    reveal_strlit("] ");
    let l = mark + "] "@ + said;
    assert(lines.push(l).drop_last() == lines);
    assert(lines.push(l).last() == l);
    assert(l.skip(mark.len() as int + 2) == said);
    search::lemma_occurs_add(mark, "] "@);
    search::lemma_occurs_add(mark + "] "@, said);
}

/// Whisper reads what ffmpeg wrote, or the file itself where there is no ffmpeg, with the
/// model and the language that are set, and what it writes is what is read.
pub proof fn whisper_reads_what_ffmpeg_wrote(
    p: TranscriptPlan,
    path: Seq<char>,
    kind: ContentKind,
    tools: ResolvedTools,
    state: Seq<char>,
    id: Seq<char>,
)
    requires
        can_transcribe(tools),
        p.is_for(path, kind, tools, state, id),
    ensures
        ({
            let w = text::views(p.whisper.args@);
            &&& p.whisper.program@ == tools.whisper.unwrap()@
            &&& w[1] == tools.whisper_model.unwrap()@
            &&& w[5] == tools.whisper_lang@
            &&& p.txt_path@ == w[8] + ".txt"@
            &&& tools.ffmpeg is None ==> p.ffmpeg is None && w[3] == path
            &&& p.ffmpeg matches Some(f) ==> {
                let a = text::views(f.args@);
                &&& f.program@ == tools.ffmpeg.unwrap()@
                &&& a.contains(path)
                &&& a.last() == p.wav_path@
                &&& w[3] == p.wav_path@
                &&& tools.transcript_max_secs > 0 ==> a.contains(
                    text::decimal_of(tools.transcript_max_secs as nat),
                )
            }
            &&& tools.ffmpeg is Some ==> p.ffmpeg is Some
            &&& tools.whisper_threads > 0 ==> w.last() == text::decimal_of(
                tools.whisper_threads as nat,
            )
        }),
{
    if let Some(f) = p.ffmpeg {
        let a = text::views(f.args@);
        assert(a[2] == path);
        if tools.transcript_max_secs > 0 {
            assert(a[4] == text::decimal_of(tools.transcript_max_secs as nat));
        }
    }
}

/// Speech is taken down only where it is wanted and the program and its model are known, and
/// only from recordings that can be read.
pub proof fn only_recordings_are_transcribed(path: Seq<char>, kind: ContentKind, tools: ResolvedTools)
    ensures
        !tools.enable_transcript || tools.whisper is None || tools.whisper_model is None
            ==> !can_transcribe(tools),
        kind != ContentKind::Audio && kind != ContentKind::Video ==> transcript_refusal(
            path,
            kind,
            tools,
        ) is Some,
        tools.ffmpeg is Some && (kind == ContentKind::Audio || kind == ContentKind::Video)
            ==> transcript_refusal(path, kind, tools) is None,
        tools.ffmpeg is None && kind == ContentKind::Video ==> transcript_refusal(path, kind, tools)
            is Some,
{
}

/// The arguments hold a flag with its value behind it.
pub open spec fn has_flag(args: Seq<Seq<char>>, flag: Seq<char>, value: Seq<char>) -> bool {
    exists|i: int| 0 <= i && i + 1 < args.len() && #[trigger] args[i] == flag && args[i + 1] == value
}

/// The programs are run on the recording itself: the probe on the file, and ffmpeg from the
/// file to the sound, as one channel of sixteen thousand samples a second.
pub proof fn programs_are_run_on_the_recording(path: Seq<char>, wav: Seq<char>, max_secs: u64)
    ensures
        probe_args(path).last() == path,
        ffmpeg_args(path, wav, max_secs)[1] == "-i"@,
        ffmpeg_args(path, wav, max_secs)[2] == path,
        ffmpeg_args(path, wav, max_secs).last() == wav,
        max_secs > 0 <==> ffmpeg_args(path, wav, max_secs)[3] == "-t"@,
        has_flag(ffmpeg_args(path, wav, max_secs), "-ar"@, "16000"@),
        has_flag(ffmpeg_args(path, wav, max_secs), "-ac"@, "1"@),
        has_flag(ffmpeg_args(path, wav, max_secs), "-c:a"@, "pcm_s16le"@),
{
    let a = ffmpeg_args(path, wav, max_secs);
    let n = a.len() - 7;
    assert(a[n] == "-ar"@ && a[n + 1] == "16000"@);
    assert(a[n + 2] == "-ac"@ && a[n + 3] == "1"@);
    assert(a[n + 4] == "-c:a"@ && a[n + 5] == "pcm_s16le"@);
    assert("-ar"@ != "-t"@) by {
        reveal_strlit("-ar");
        reveal_strlit("-t");
        assert("-ar"@.len() == 3 && "-t"@.len() == 2);
    }
}

/// What was printed with time marks says what stands behind the marks, without the marks.
pub proof fn marked_text_is_cleaned(out: Seq<char>)
    requires
        search::occurs(out, "-->"@),
        !text::blank(spoken(split::lines_of(out))),
    ensures
        printed_transcript(out) == text::trimmed(spoken(split::lines_of(out))),
{
    text::trimming_takes_white_space_only(spoken(split::lines_of(out)));
}

/// Some recordings are sound that whisper reads itself; they are known by their extension.
pub proof fn sound_is_known_by_its_extension(base: Seq<char>, stem: Seq<char>, ext: Seq<char>)
    requires
        stem.len() > 0,
        forall|i: int| 0 <= i < stem.len() ==> #[trigger] stem[i] != '/',
        ext.len() > 0,
        forall|i: int| 0 <= i < ext.len() ==> (#[trigger] ext[i]) != '/' && ext[i] != '.',
    ensures
        direct_input(paths::under(base, stem + seq!['.'] + ext)) <==> text::lowered(ext) == "wav"@
            || text::lowered(ext) == "mp3"@ || text::lowered(ext) == "flac"@ || text::lowered(ext)
            == "ogg"@,
{
    paths::names_have_stem_and_extension(base, stem, ext);
}

/// Sound was made exactly where ffmpeg succeeded and the file is there; else the reason is
/// what ffmpeg complained of, or the file that is missing.
pub proof fn sound_was_made_or_not(out: ProgramOutput, wav: Seq<char>, wav_exists: bool)
    ensures
        ffmpeg_error(out, wav, wav_exists) is None <==> out.success && wav_exists,
        !out.success ==> search::occurs(
            ffmpeg_error(out, wav, wav_exists).unwrap(),
            text::trimmed(out.err_text()),
        ),
        out.success && !wav_exists ==> search::occurs(
            ffmpeg_error(out, wav, wav_exists).unwrap(),
            wav,
        ),
{
    let e = text::trimmed(out.err_text());
    search::lemma_occurs_itself(e);
    search::lemma_occurs_add("ffmpeg extract failed: "@, e);
    search::lemma_occurs_itself(wav);
    search::lemma_occurs_add("ffmpeg did not write "@, wav);
}

/// Of what was printed, the lines that whisper says of itself are left out, unless they have
/// a time mark, and all others are kept in order.
pub proof fn lines_about_whisper_are_left_out(lines: Seq<Seq<char>>, line: Seq<char>)
    ensures
        speech_lines(lines.push(line)) == if !search::occurs(line, "-->"@) && (text::begins(
            line,
            "whisper_"@,
        ) || text::begins(line, "system_info"@) || text::begins(line, "main:"@)) {
            speech_lines(lines)
        } else {
            speech_lines(lines).push(line)
        },
        speech_lines(Seq::<Seq<char>>::empty()).len() == 0,
{
    assert(lines.push(line).drop_last() == lines);
    assert(lines.push(line).last() == line);
}

/// A transcript that was written counts whole, even where Whisper failed afterwards. Only where
/// it failed and there is no transcript at all is that an error, and it tells what Whisper
/// complained of. What was noted before stays noted.
pub proof fn failures_do_not_lose_transcripts(
    r: Result<Transcript, String>,
    notes: Seq<Seq<char>>,
    written: Seq<char>,
    out: ProgramOutput,
)
    requires
        is_run_transcript(r, notes, written, out),
    ensures
        !text::blank(written) ==> r is Ok && r.unwrap().body@ == text::trimmed(written),
        out.success ==> r is Ok,
        !out.success && text::blank(written) && text::blank(out.out_text()) && !search::occurs(
            out.out_text(),
            "-->"@,
        ) ==> r is Err,
        r matches Ok(t) ==> text::views(t.notes@).len() > notes.len() && text::views(t.notes@).take(
            notes.len() as int,
        ) == notes,
        r matches Err(e) ==> search::occurs(e@, text::trimmed(out.err_text())),
{
    text::trimming_takes_white_space_only(written);
    text::trimming_takes_white_space_only(out.out_text());
    match r {
        Ok(t) => {
            transcripts_are_what_was_said(t, notes, written, out.out_text());
        },
        Err(e) => {
            let c = text::trimmed(out.err_text());
            search::lemma_occurs_itself(c);
            search::lemma_occurs_add("whisper failed: "@, c);
        },
    }
}

} // verus!
