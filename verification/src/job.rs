//! Ingest job records.

use vstd::prelude::*;
use vstd::string::*;

use crate::clock;
use crate::clock::Timestamp;
use crate::ids;
use crate::paths;
use crate::text;

verus! {

/// How far a job has come.
#[derive(Debug, Clone, Copy, PartialEq, Eq, Structural)]
pub enum JobStatus {
    Pending,
    Extracting,
    AwaitingAi,
    Writing,
    Done,
    Failed,
    Skipped,
}

impl JobStatus {
    /// Nothing is left to do for the job.
    pub open spec fn settled(self) -> bool {
        self == JobStatus::Done || self == JobStatus::Skipped
    }
}

/// The name of a status.
pub open spec fn status_text(s: JobStatus) -> Seq<char> {
    match s {
        JobStatus::Pending => "Pending"@,
        JobStatus::Extracting => "Extracting"@,
        JobStatus::AwaitingAi => "AwaitingAi"@,
        JobStatus::Writing => "Writing"@,
        JobStatus::Done => "Done"@,
        JobStatus::Failed => "Failed"@,
        JobStatus::Skipped => "Skipped"@,
    }
}

impl JobStatus {
    /// The name of the status.
    pub fn name(self) -> (r: &'static str)
        ensures
            r@ == status_text(self),
    {
        match self {
            JobStatus::Pending => "Pending",
            JobStatus::Extracting => "Extracting",
            JobStatus::AwaitingAi => "AwaitingAi",
            JobStatus::Writing => "Writing",
            JobStatus::Done => "Done",
            JobStatus::Failed => "Failed",
            JobStatus::Skipped => "Skipped",
        }
    }
}

/// What a file holds.
#[derive(Debug, Clone, Copy, PartialEq, Eq, Structural)]
pub enum ContentKind {
    Text,
    Markdown,
    Html,
    Pdf,
    Image,
    Video,
    Audio,
    UrlClip,
    Unknown,
}

/// The kind of content that a file extension in small letters stands for.
pub open spec fn kind_of_extension(e: Seq<char>) -> ContentKind {
    if e == "txt"@ || e == "text"@ || e == "log"@ {
        ContentKind::Text
    } else if e == "md"@ || e == "markdown"@ {
        ContentKind::Markdown
    } else if e == "html"@ || e == "htm"@ {
        ContentKind::Html
    } else if e == "pdf"@ {
        ContentKind::Pdf
    } else if e == "png"@ || e == "jpg"@ || e == "jpeg"@ || e == "gif"@ || e == "webp"@ || e
        == "tif"@ || e == "tiff"@ || e == "bmp"@ {
        ContentKind::Image
    } else if e == "mp4"@ || e == "webm"@ || e == "mkv"@ || e == "mov"@ || e == "avi"@ {
        ContentKind::Video
    } else if e == "mp3"@ || e == "wav"@ || e == "m4a"@ || e == "ogg"@ || e == "flac"@ {
        ContentKind::Audio
    } else if e == "json"@ {
        ContentKind::UrlClip
    } else {
        ContentKind::Unknown
    }
}

/// The name of a kind of content.
pub open spec fn kind_text(kind: ContentKind) -> Seq<char> {
    match kind {
        ContentKind::Text => "Text"@,
        ContentKind::Markdown => "Markdown"@,
        ContentKind::Html => "Html"@,
        ContentKind::Pdf => "Pdf"@,
        ContentKind::Image => "Image"@,
        ContentKind::Video => "Video"@,
        ContentKind::Audio => "Audio"@,
        ContentKind::UrlClip => "UrlClip"@,
        ContentKind::Unknown => "Unknown"@,
    }
}

impl ContentKind {
    /// The name of the kind.
    pub fn name(self) -> (r: &'static str)
        ensures
            r@ == kind_text(self),
    {
        match self {
            ContentKind::Text => "Text",
            ContentKind::Markdown => "Markdown",
            ContentKind::Html => "Html",
            ContentKind::Pdf => "Pdf",
            ContentKind::Image => "Image",
            ContentKind::Video => "Video",
            ContentKind::Audio => "Audio",
            ContentKind::UrlClip => "UrlClip",
            ContentKind::Unknown => "Unknown",
        }
    }

    /// The kind of content that the extension of a path stands for.
    pub fn from_path(path: &str) -> (r: ContentKind)
        ensures
            r == kind_of_extension(paths::lower_extension(path@)),
    {
        let ext = paths::extension_lower(path);
        let e = ext.as_str();
        if text::same(e, "txt") || text::same(e, "text") || text::same(e, "log") {
            ContentKind::Text
        } else if text::same(e, "md") || text::same(e, "markdown") {
            ContentKind::Markdown
        } else if text::same(e, "html") || text::same(e, "htm") {
            ContentKind::Html
        } else if text::same(e, "pdf") {
            ContentKind::Pdf
        } else if text::same(e, "png") || text::same(e, "jpg") || text::same(e, "jpeg")
            || text::same(e, "gif") || text::same(e, "webp") || text::same(e, "tif")
            || text::same(e, "tiff") || text::same(e, "bmp") {
            ContentKind::Image
        } else if text::same(e, "mp4") || text::same(e, "webm") || text::same(e, "mkv")
            || text::same(e, "mov") || text::same(e, "avi") {
            ContentKind::Video
        } else if text::same(e, "mp3") || text::same(e, "wav") || text::same(e, "m4a")
            || text::same(e, "ogg") || text::same(e, "flac") {
            ContentKind::Audio
        } else if text::same(e, "json") {
            ContentKind::UrlClip
        } else {
            ContentKind::Unknown
        }
    }
}

/// One source file on its way into the vault.
#[derive(Debug, Clone)]
pub struct IngestJob {
    /// A random UUID, as its 128-bit value.
    pub id: u128,
    pub status: JobStatus,
    pub source_path: String,
    pub kind: ContentKind,
    pub content_sha256: Option<String>,
    pub title: Option<String>,
    pub source_url: Option<String>,
    pub extracted_text_path: Option<String>,
    pub project_slug: Option<String>,
    pub note_path: Option<String>,
    pub error: Option<String>,
    pub created_at: Timestamp,
    pub updated_at: Timestamp,
    /// Browser metadata (JSON text).
    pub metadata_json: Option<String>,
}

/// What an [`IngestJob`] holds.
#[verifier::ext_equal]
pub struct JobView {
    pub id: u128,
    pub status: JobStatus,
    pub source_path: Seq<char>,
    pub kind: ContentKind,
    pub content_sha256: Option<Seq<char>>,
    pub title: Option<Seq<char>>,
    pub source_url: Option<Seq<char>>,
    pub extracted_text_path: Option<Seq<char>>,
    pub project_slug: Option<Seq<char>>,
    pub note_path: Option<Seq<char>>,
    pub error: Option<Seq<char>>,
    pub created_at: Timestamp,
    pub updated_at: Timestamp,
    pub metadata_json: Option<Seq<char>>,
}

impl View for IngestJob {
    type V = JobView;

    open spec fn view(&self) -> JobView {
        JobView {
            id: self.id,
            status: self.status,
            source_path: self.source_path@,
            kind: self.kind,
            content_sha256: text::opt_view(self.content_sha256),
            title: text::opt_view(self.title),
            source_url: text::opt_view(self.source_url),
            extracted_text_path: text::opt_view(self.extracted_text_path),
            project_slug: text::opt_view(self.project_slug),
            note_path: text::opt_view(self.note_path),
            error: text::opt_view(self.error),
            created_at: self.created_at,
            updated_at: self.updated_at,
            metadata_json: text::opt_view(self.metadata_json),
        }
    }
}

impl JobView {
    /// What stays the same over the life of a job.
    pub open spec fn same_job(self, other: JobView) -> bool {
        &&& self.id == other.id
        &&& self.source_path == other.source_path
        &&& self.created_at == other.created_at
    }

    /// The job after moving it on at a given time.
    pub open spec fn moved(self, status: JobStatus, now: Timestamp) -> JobView {
        JobView { status, updated_at: now, ..self }
    }

    /// The job after giving it up at a given time, for the reason given.
    pub open spec fn failed(self, err: Seq<char>, now: Timestamp) -> JobView {
        JobView { error: Some(err), ..self.moved(JobStatus::Failed, now) }
    }
}

impl IngestJob {
    /// A job for `path` that nothing has been done for.
    pub open spec fn is_fresh(self, path: Seq<char>, id: u128, now: Timestamp) -> bool {
        &&& self.id == id
        &&& self.status == JobStatus::Pending
        &&& self.source_path@ == path
        &&& self.kind == kind_of_extension(paths::lower_extension(path))
        &&& self.content_sha256 is None
        &&& self.title is None
        &&& self.source_url is None
        &&& self.extracted_text_path is None
        &&& self.project_slug is None
        &&& self.note_path is None
        &&& self.error is None
        &&& self.created_at == now
        &&& self.updated_at == now
        &&& self.metadata_json is None
    }

    /// A job for a source file, with a given identifier and time.
    pub fn new_at(source_path: String, id: u128, now: Timestamp) -> (r: IngestJob)
        ensures
            r.is_fresh(source_path@, id, now),
    {
        let kind = ContentKind::from_path(source_path.as_str());
        IngestJob {
            id,
            status: JobStatus::Pending,
            source_path,
            kind,
            content_sha256: None,
            title: None,
            source_url: None,
            extracted_text_path: None,
            project_slug: None,
            note_path: None,
            error: None,
            created_at: now,
            updated_at: now,
            metadata_json: None,
        }
    }

    /// A job for a source file, with a new identifier, made now.
    pub fn new(source_path: String) -> (r: IngestJob)
        ensures
            r.is_fresh(source_path@, r.id, r.created_at),
            ids::is_random(r.id),
            r.created_at.dated(),
    {
        let now = clock::utc_now();
        IngestJob::new_at(source_path, ids::new_job_id(), now)
    }

    /// Record that the job changed at a given time.
    pub fn touch_at(&mut self, now: Timestamp)
        ensures
            *final(self) == (IngestJob { updated_at: now, ..*old(self) }),
    {
        self.updated_at = now;
    }

    /// Record that the job changed now.
    pub fn touch(&mut self)
        ensures
            *final(self) == (IngestJob { updated_at: final(self).updated_at, ..*old(self) }),
            final(self).updated_at.dated(),
    {
        self.touch_at(clock::utc_now());
    }

    /// Give the job up, for the reason given.
    pub fn fail(&mut self, err: String)
        ensures
            *final(self) == (IngestJob {
                status: JobStatus::Failed,
                error: Some(err),
                updated_at: final(self).updated_at,
                ..*old(self)
            }),
            final(self).updated_at.dated(),
            final(self)@ == old(self)@.failed(err@, final(self).updated_at),
    {
        self.status = JobStatus::Failed;
        self.error = Some(err);
        self.touch();
    }

    /// Move the job on at a given time.
    pub fn set_status_at(&mut self, status: JobStatus, now: Timestamp)
        ensures
            *final(self) == (IngestJob { status, updated_at: now, ..*old(self) }),
            final(self)@ == old(self)@.moved(status, now),
    {
        self.status = status;
        self.touch_at(now);
    }

    /// Move the job on.
    pub fn set_status(&mut self, status: JobStatus)
        ensures
            *final(self) == (IngestJob { status, updated_at: final(self).updated_at, ..*old(self) }),
            final(self).updated_at.dated(),
    {
        self.set_status_at(status, clock::utc_now());
    }
}

/// A file is known by its extension, whatever its case.
pub proof fn files_are_known_by_their_extension(base: Seq<char>, stem: Seq<char>, ext: Seq<char>)
    requires
        stem.len() > 0,
        forall|i: int| 0 <= i < stem.len() ==> #[trigger] stem[i] != '/',
        ext.len() > 0,
        forall|i: int| 0 <= i < ext.len() ==> (#[trigger] ext[i]) != '/' && ext[i] != '.',
    ensures
        kind_of_extension(paths::lower_extension(paths::under(base, stem + seq!['.'] + ext)))
            == kind_of_extension(text::lowered(ext)),
{
    paths::names_have_stem_and_extension(base, stem, ext);
}

/// Every kind has its extensions, and no other.
pub proof fn kinds_have_their_extensions(e: Seq<char>)
    ensures
        kind_of_extension(e) == ContentKind::Text <==> e == "txt"@ || e == "text"@ || e == "log"@,
        kind_of_extension(e) == ContentKind::Markdown <==> e == "md"@ || e == "markdown"@,
        kind_of_extension(e) == ContentKind::Html <==> e == "html"@ || e == "htm"@,
        kind_of_extension(e) == ContentKind::Pdf <==> e == "pdf"@,
        kind_of_extension(e) == ContentKind::Image <==> e == "png"@ || e == "jpg"@ || e == "jpeg"@ || e == "gif"@ || e == "webp"@ || e == "tif"@ || e == "tiff"@ || e == "bmp"@,
        kind_of_extension(e) == ContentKind::Video <==> e == "mp4"@ || e == "webm"@ || e == "mkv"@ || e == "mov"@ || e == "avi"@,
        kind_of_extension(e) == ContentKind::Audio <==> e == "mp3"@ || e == "wav"@ || e == "m4a"@ || e == "ogg"@ || e == "flac"@,
        kind_of_extension(e) == ContentKind::UrlClip <==> e == "json"@,
        e.len() == 0 || e.len() > 8 ==> kind_of_extension(e) == ContentKind::Unknown,
{
    reveal_strlit("txt");
    reveal_strlit("text");
    reveal_strlit("log");
    reveal_strlit("md");
    reveal_strlit("markdown");
    reveal_strlit("html");
    reveal_strlit("htm");
    reveal_strlit("pdf");
    reveal_strlit("png");
    reveal_strlit("jpg");
    reveal_strlit("jpeg");
    reveal_strlit("gif");
    reveal_strlit("webp");
    reveal_strlit("tif");
    reveal_strlit("tiff");
    reveal_strlit("bmp");
    reveal_strlit("mp4");
    reveal_strlit("webm");
    reveal_strlit("mkv");
    reveal_strlit("mov");
    reveal_strlit("avi");
    reveal_strlit("mp3");
    reveal_strlit("wav");
    reveal_strlit("m4a");
    reveal_strlit("ogg");
    reveal_strlit("flac");
    reveal_strlit("json");
    assert("txt"@.len() == 3 && "txt"@[0] == 't' && "txt"@[1] == 'x' && "txt"@[2] == 't');
    assert("text"@.len() == 4 && "text"@[0] == 't' && "text"@[1] == 'e' && "text"@[2] == 'x' && "text"@[3] == 't');
    assert("log"@.len() == 3 && "log"@[0] == 'l' && "log"@[1] == 'o' && "log"@[2] == 'g');
    assert("md"@.len() == 2 && "md"@[0] == 'm' && "md"@[1] == 'd');
    assert("markdown"@.len() == 8 && "markdown"@[0] == 'm' && "markdown"@[1] == 'a' && "markdown"@[2] == 'r' && "markdown"@[3] == 'k');
    assert("html"@.len() == 4 && "html"@[0] == 'h' && "html"@[1] == 't' && "html"@[2] == 'm' && "html"@[3] == 'l');
    assert("htm"@.len() == 3 && "htm"@[0] == 'h' && "htm"@[1] == 't' && "htm"@[2] == 'm');
    assert("pdf"@.len() == 3 && "pdf"@[0] == 'p' && "pdf"@[1] == 'd' && "pdf"@[2] == 'f');
    assert("png"@.len() == 3 && "png"@[0] == 'p' && "png"@[1] == 'n' && "png"@[2] == 'g');
    assert("jpg"@.len() == 3 && "jpg"@[0] == 'j' && "jpg"@[1] == 'p' && "jpg"@[2] == 'g');
    assert("jpeg"@.len() == 4 && "jpeg"@[0] == 'j' && "jpeg"@[1] == 'p' && "jpeg"@[2] == 'e' && "jpeg"@[3] == 'g');
    assert("gif"@.len() == 3 && "gif"@[0] == 'g' && "gif"@[1] == 'i' && "gif"@[2] == 'f');
    assert("webp"@.len() == 4 && "webp"@[0] == 'w' && "webp"@[1] == 'e' && "webp"@[2] == 'b' && "webp"@[3] == 'p');
    assert("tif"@.len() == 3 && "tif"@[0] == 't' && "tif"@[1] == 'i' && "tif"@[2] == 'f');
    assert("tiff"@.len() == 4 && "tiff"@[0] == 't' && "tiff"@[1] == 'i' && "tiff"@[2] == 'f' && "tiff"@[3] == 'f');
    assert("bmp"@.len() == 3 && "bmp"@[0] == 'b' && "bmp"@[1] == 'm' && "bmp"@[2] == 'p');
    assert("mp4"@.len() == 3 && "mp4"@[0] == 'm' && "mp4"@[1] == 'p' && "mp4"@[2] == '4');
    assert("webm"@.len() == 4 && "webm"@[0] == 'w' && "webm"@[1] == 'e' && "webm"@[2] == 'b' && "webm"@[3] == 'm');
    assert("mkv"@.len() == 3 && "mkv"@[0] == 'm' && "mkv"@[1] == 'k' && "mkv"@[2] == 'v');
    assert("mov"@.len() == 3 && "mov"@[0] == 'm' && "mov"@[1] == 'o' && "mov"@[2] == 'v');
    assert("avi"@.len() == 3 && "avi"@[0] == 'a' && "avi"@[1] == 'v' && "avi"@[2] == 'i');
    assert("mp3"@.len() == 3 && "mp3"@[0] == 'm' && "mp3"@[1] == 'p' && "mp3"@[2] == '3');
    assert("wav"@.len() == 3 && "wav"@[0] == 'w' && "wav"@[1] == 'a' && "wav"@[2] == 'v');
    assert("m4a"@.len() == 3 && "m4a"@[0] == 'm' && "m4a"@[1] == '4' && "m4a"@[2] == 'a');
    assert("ogg"@.len() == 3 && "ogg"@[0] == 'o' && "ogg"@[1] == 'g' && "ogg"@[2] == 'g');
    assert("flac"@.len() == 4 && "flac"@[0] == 'f' && "flac"@[1] == 'l' && "flac"@[2] == 'a' && "flac"@[3] == 'c');
    assert("json"@.len() == 4 && "json"@[0] == 'j' && "json"@[1] == 's' && "json"@[2] == 'o' && "json"@[3] == 'n');
}

/// A new job waits, and nothing is known of it but its source and when it came.
pub proof fn new_jobs_wait(j: IngestJob, path: Seq<char>, id: u128, now: Timestamp)
    requires
        j.is_fresh(path, id, now),
    ensures
        j.status == JobStatus::Pending,
        !j.status.settled(),
        j.source_path@ == path,
        j.id == id,
        j.created_at == now,
        j.updated_at == now,
        j.content_sha256 is None && j.project_slug is None && j.note_path is None && j.error is None,
{
}

/// A job is settled when it is done or skipped, and in no other status; a job that moves to
/// another status keeps all else and is stamped.
pub proof fn only_finished_jobs_are_settled(j: JobView, status: JobStatus, now: Timestamp)
    ensures
        status.settled() <==> status == JobStatus::Done || status == JobStatus::Skipped,
        j.moved(status, now).status == status,
        j.moved(status, now).updated_at == now,
        j.moved(status, now).same_job(j),
        j.moved(status, now).content_sha256 == j.content_sha256,
        j.moved(status, now).title == j.title,
        j.moved(status, now).source_url == j.source_url,
        j.moved(status, now).kind == j.kind,
        j.moved(status, now).error == j.error,
        j.moved(status, now).note_path == j.note_path,
        j.moved(status, now).project_slug == j.project_slug,
        j.moved(status, now).extracted_text_path == j.extracted_text_path,
        j.moved(status, now).metadata_json == j.metadata_json,
{
}

/// Every status and every kind has a name of its own.
pub proof fn names_tell_apart(a: JobStatus, b: JobStatus, k: ContentKind, l: ContentKind)
    ensures
        status_text(a) == status_text(b) ==> a == b,
        kind_text(k) == kind_text(l) ==> k == l,
{
    reveal_strlit("Pending");
    reveal_strlit("Extracting");
    reveal_strlit("AwaitingAi");
    reveal_strlit("Writing");
    reveal_strlit("Done");
    reveal_strlit("Failed");
    reveal_strlit("Skipped");
    reveal_strlit("Text");
    reveal_strlit("Markdown");
    reveal_strlit("Html");
    reveal_strlit("Pdf");
    reveal_strlit("Image");
    reveal_strlit("Video");
    reveal_strlit("Audio");
    reveal_strlit("UrlClip");
    reveal_strlit("Unknown");
    assert("Pending"@.len() == 7 && "Pending"@[0] == 'P' && "Pending"@[1] == 'e');
    assert("Extracting"@.len() == 10 && "Extracting"@[0] == 'E' && "Extracting"@[1] == 'x');
    assert("AwaitingAi"@.len() == 10 && "AwaitingAi"@[0] == 'A' && "AwaitingAi"@[1] == 'w');
    assert("Writing"@.len() == 7 && "Writing"@[0] == 'W' && "Writing"@[1] == 'r');
    assert("Done"@.len() == 4 && "Done"@[0] == 'D' && "Done"@[1] == 'o');
    assert("Failed"@.len() == 6 && "Failed"@[0] == 'F' && "Failed"@[1] == 'a');
    assert("Skipped"@.len() == 7 && "Skipped"@[0] == 'S' && "Skipped"@[1] == 'k');
    assert("Text"@.len() == 4 && "Text"@[0] == 'T' && "Text"@[1] == 'e');
    assert("Markdown"@.len() == 8 && "Markdown"@[0] == 'M' && "Markdown"@[1] == 'a');
    assert("Html"@.len() == 4 && "Html"@[0] == 'H' && "Html"@[1] == 't');
    assert("Pdf"@.len() == 3 && "Pdf"@[0] == 'P' && "Pdf"@[1] == 'd');
    assert("Image"@.len() == 5 && "Image"@[0] == 'I' && "Image"@[1] == 'm');
    assert("Video"@.len() == 5 && "Video"@[0] == 'V' && "Video"@[1] == 'i');
    assert("Audio"@.len() == 5 && "Audio"@[0] == 'A' && "Audio"@[1] == 'u');
    assert("UrlClip"@.len() == 7 && "UrlClip"@[0] == 'U' && "UrlClip"@[1] == 'r');
    assert("Unknown"@.len() == 7 && "Unknown"@[0] == 'U' && "Unknown"@[1] == 'n');
}

/// A job that is moved on or given up changes its status, its time and, where it is given up,
/// its error; all that is known of it stays.
pub proof fn jobs_keep_what_is_known(j: JobView, status: JobStatus, err: Seq<char>, now: Timestamp)
    ensures
        j.moved(status, now).status == status,
        j.moved(status, now).error == j.error,
        j.failed(err, now).status == JobStatus::Failed,
        j.failed(err, now).error == Some(err),
        keeps(j.moved(status, now), j),
        keeps(j.failed(err, now), j),
        j.moved(status, now).updated_at == now,
        j.failed(err, now).updated_at == now,
{
}

/// The same job, with all that is known of its content, its project and its note.
pub open spec fn keeps(k: JobView, j: JobView) -> bool {
    &&& k.same_job(j)
    &&& k.kind == j.kind
    &&& k.content_sha256 == j.content_sha256
    &&& k.title == j.title
    &&& k.source_url == j.source_url
    &&& k.extracted_text_path == j.extracted_text_path
    &&& k.project_slug == j.project_slug
    &&& k.note_path == j.note_path
    &&& k.metadata_json == j.metadata_json
}

} // verus!
