//! Content extraction: what is made of the text of one source file.

use vstd::prelude::*;
use vstd::string::*;
use vstd::utf8::*;

use crate::job;
use crate::job::ContentKind;
use crate::paths;
use crate::search;
use crate::slug;
use crate::split;
use crate::text;

verus! {

/// Result of extraction from one source file.
#[derive(Debug, Clone)]
pub struct Extracted {
    pub title: Option<String>,
    pub source_url: Option<String>,
    pub text: String,
    pub kind: ContentKind,
    pub notes: Vec<String>,
}

/// What an [`Extracted`] holds.
#[verifier::ext_equal]
pub struct ExtractedView {
    pub title: Option<Seq<char>>,
    pub source_url: Option<Seq<char>>,
    pub text: Seq<char>,
    pub kind: ContentKind,
    pub notes: Seq<Seq<char>>,
}

impl View for Extracted {
    type V = ExtractedView;

    open spec fn view(&self) -> ExtractedView {
        ExtractedView {
            title: text::opt_view(self.title),
            source_url: text::opt_view(self.source_url),
            text: self.text@,
            kind: self.kind,
            notes: text::views(self.notes@),
        }
    }
}

/// Browser / native-messaging envelope written as JSON into incoming/.
#[derive(Debug, Clone)]
pub struct BrowserPayload {
    pub title: Option<String>,
    pub url: Option<String>,
    pub selection: Option<String>,
    pub page_markdown: Option<String>,
    pub page_text: Option<String>,
    pub image_url: Option<String>,
    pub content_type: Option<String>,
    pub captured_at: Option<String>,
    /// Anything else, as JSON text.
    pub extra: Option<String>,
}

/// What has to be read to extract from a file.
#[derive(Debug, Clone, Copy, PartialEq, Eq, Structural)]
pub enum Route {
    /// The text of a PDF document.
    Pdf,
    /// What OCR reads from an image.
    Image,
    /// Metadata and transcript of a recording.
    Media,
    /// A file of text with tags in it.
    Html,
    /// A file of text that may be a browser envelope.
    Clip,
    /// A file of text.
    Plain,
}

/// What has to be read for a kind of content.
pub open spec fn route_of(kind: ContentKind) -> Route {
    match kind {
        ContentKind::Pdf => Route::Pdf,
        ContentKind::Image => Route::Image,
        ContentKind::Video | ContentKind::Audio => Route::Media,
        ContentKind::Html => Route::Html,
        ContentKind::UrlClip | ContentKind::Unknown => Route::Clip,
        ContentKind::Text | ContentKind::Markdown => Route::Plain,
    }
}

/// The kind of content of a file, and what has to be read to extract from it.
pub fn extract_route(path: &str) -> (r: (ContentKind, Route))
    ensures
        r.0 == job::kind_of_extension(paths::lower_extension(path@)),
        r.1 == route_of(r.0),
{
    let kind = ContentKind::from_path(path);
    let route = match kind {
        ContentKind::Pdf => Route::Pdf,
        ContentKind::Image => Route::Image,
        ContentKind::Video | ContentKind::Audio => Route::Media,
        ContentKind::Html => Route::Html,
        ContentKind::UrlClip | ContentKind::Unknown => Route::Clip,
        ContentKind::Text | ContentKind::Markdown => Route::Plain,
    };
    (kind, route)
}

/// The text has something besides white space.
pub open spec fn said(o: Option<Seq<char>>) -> bool {
    o is Some && text::trimmed(o.unwrap()).len() > 0
}

/// The part for the selection, if there is one.
pub open spec fn selection_part(p: BrowserPayload) -> Seq<Seq<char>> {
    if said(text::opt_view(p.selection)) {
        seq!["## Selection\n\n"@ + p.selection.unwrap()@]
    } else {
        Seq::empty()
    }
}

/// The part for the page: its Markdown if there is any, else its text.
pub open spec fn page_part(p: BrowserPayload) -> Seq<Seq<char>> {
    if p.page_markdown is Some {
        if said(text::opt_view(p.page_markdown)) {
            seq!["## Page (Markdown)\n\n"@ + p.page_markdown.unwrap()@]
        } else {
            Seq::empty()
        }
    } else if said(text::opt_view(p.page_text)) {
        seq!["## Page text\n\n"@ + p.page_text.unwrap()@]
    } else {
        Seq::empty()
    }
}

/// The part for an image, if there is one.
pub open spec fn image_part(p: BrowserPayload) -> Seq<Seq<char>> {
    match p.image_url {
        Some(u) => seq!["## Image URL\n\n"@ + u@],
        None => Seq::empty(),
    }
}

/// What is made of a browser envelope.
pub open spec fn payload_extract(p: BrowserPayload) -> ExtractedView {
    ExtractedView {
        title: text::opt_view(p.title),
        source_url: text::opt_view(p.url),
        text: split::joined(selection_part(p) + page_part(p) + image_part(p), "\n\n"@),
        kind: ContentKind::UrlClip,
        notes: match p.content_type {
            Some(c) => seq!["content_type="@ + c@],
            None => Seq::empty(),
        },
    }
}

/// `a` followed by `b`.
pub(crate) fn glue(a: &str, b: &str) -> (r: String)
    ensures
        r@ == a@ + b@,
{
    let mut s = a.to_owned();
    s.append(b);
    s
}

/// Whether the text has nothing besides white space.
pub(crate) fn is_blank(s: &str) -> (r: bool)
    ensures
        r == (text::trimmed(s@).len() == 0),
{
    text::trim(s).is_empty()
}

/// What is made of a browser envelope.
pub fn extracted_from_payload(p: BrowserPayload) -> (r: Extracted)
    ensures
        r@ == payload_extract(p),
{
    let mut parts: Vec<String> = Vec::new();
    if let Some(sel) = &p.selection {
        if !is_blank(sel.as_str()) {
            text::push_text(&mut parts, glue("## Selection\n\n", sel.as_str()));
        }
    }
    assert(text::views(parts@) == selection_part(p));
    if let Some(md) = &p.page_markdown {
        if !is_blank(md.as_str()) {
            text::push_text(&mut parts, glue("## Page (Markdown)\n\n", md.as_str()));
        }
    } else if let Some(t) = &p.page_text {
        if !is_blank(t.as_str()) {
            text::push_text(&mut parts, glue("## Page text\n\n", t.as_str()));
        }
    }
    assert(text::views(parts@) == selection_part(p) + page_part(p));
    if let Some(img) = &p.image_url {
        text::push_text(&mut parts, glue("## Image URL\n\n", img.as_str()));
    }
    assert(text::views(parts@) == selection_part(p) + page_part(p) + image_part(p));
    let mut notes: Vec<String> = Vec::new();
    if let Some(ct) = &p.content_type {
        text::push_text(&mut notes, glue("content_type=", ct.as_str()));
    }
    assert(text::views(notes@) == payload_extract(p).notes);
    Extracted {
        title: p.title,
        source_url: p.url,
        text: split::join(&parts, "\n\n"),
        kind: ContentKind::UrlClip,
        notes,
    }
}

/// What is made of a file of text as it stands.
pub open spec fn plain_extract(path: Seq<char>, kind: ContentKind, body: Seq<char>) -> ExtractedView {
    ExtractedView {
        title: paths::stem_of(path),
        source_url: None,
        text: body,
        kind,
        notes: Seq::empty(),
    }
}

/// What is made of a file of text as it stands.
pub fn extract_plain(path: &str, kind: ContentKind, body: String) -> (r: Extracted)
    ensures
        r@ == plain_extract(path@, kind, body@),
{
    let notes: Vec<String> = Vec::new();
    assert(text::views(notes@) == Seq::<Seq<char>>::empty());
    Extracted { title: paths::file_stem(path), source_url: None, text: body, kind, notes }
}

/// Control characters other than tabs and line ends.
pub open spec fn is_control(c: char) -> bool {
    (c as u32) < 9 || (13 < (c as u32) && (c as u32) < 32)
}

/// The text reads like text: it is not empty, and its beginning has fewer than eight
/// control characters.
pub open spec fn texty(s: Seq<char>) -> bool {
    s.len() > 0 && text::clipped(s, 512).filter(|c: char| is_control(c)).len() < 8
}

/// Whether the text reads like text.
pub fn looks_like_text(s: &str) -> (r: bool)
    ensures
        r == texty(s@),
{
    if s.is_empty() {
        assert(s@.len() == 0) by {
            if s@.len() > 0 {
                encode_utf8_decode_utf8(s@);
            }
        }
        return false;
    }
    assert(s@.len() > 0) by {
        if s@.len() == 0 {
            assert(encode_utf8(s@).len() == 0);
        }
    }
    let sample = text::clip(s, 512);
    let v = text::chars_of(sample.as_str());
    let ghost f = |c: char| is_control(c);
    let mut bad: usize = 0;
    let mut i: usize = 0;
    assert(sample@.take(0).filter(f).len() == 0) by {
        sample@.take(0).lemma_filter_len(f);
    }
    while i < v.len()
        invariant
            v@ == sample@,
            i <= v.len(),
            bad <= i,
            f == (|c: char| is_control(c)),
            bad == sample@.take(i as int).filter(f).len(),
        decreases v@.len() - i,
    {
        proof {
            sample@.take(i as int).lemma_filter_push(sample@[i as int], f);
            assert(sample@.take(i + 1) == sample@.take(i as int).push(sample@[i as int]));
        }
        let n: u32 = v[i] as u32;
        if n < 9 || (13 < n && n < 32) {
            bad = bad + 1;
        }
        i = i + 1;
    }
    assert(sample@.take(i as int) == sample@);
    bad < 8
}

/// What is made of a file that may be a browser envelope.
pub open spec fn clip_extract(
    path: Seq<char>,
    kind: ContentKind,
    body: Seq<char>,
    payload: Option<BrowserPayload>,
) -> ExtractedView {
    match payload {
        Some(p) => payload_extract(p),
        None => if texty(body) {
            plain_extract(path, ContentKind::Text, body)
        } else {
            plain_extract(path, kind, body)
        },
    }
}

/// What is made of a file that may be a browser envelope: the envelope, if the text
/// is one, or else the text as it stands.
pub fn extract_clip(
    path: &str,
    kind: ContentKind,
    body: String,
    payload: Option<BrowserPayload>,
) -> (r: Extracted)
    ensures
        r@ == clip_extract(path@, kind, body@, payload),
{
    match payload {
        Some(p) => extracted_from_payload(p),
        None => {
            if looks_like_text(body.as_str()) {
                extract_plain(path, ContentKind::Text, body)
            } else {
                extract_plain(path, kind, body)
            }
        },
    }
}

/// What stands outside the angle brackets of `s`.
pub open spec fn outside_tags(s: Seq<char>, in_tag: bool) -> Seq<char>
    decreases s.len(),
{
    if s.len() == 0 {
        Seq::empty()
    } else if s[0] == '<' {
        outside_tags(s.drop_first(), true)
    } else if s[0] == '>' {
        outside_tags(s.drop_first(), false)
    } else if in_tag {
        outside_tags(s.drop_first(), in_tag)
    } else {
        seq![s[0]] + outside_tags(s.drop_first(), in_tag)
    }
}

/// The words outside the tags of `s`, with single spaces between them.
pub open spec fn untagged(s: Seq<char>) -> Seq<char> {
    split::joined(split::words_of(outside_tags(s, false)), " "@)
}

/// The words outside the tags, with single spaces between them.
pub fn strip_tags(html: &str) -> (r: String)
    ensures
        r@ == untagged(html@),
{
    let v = text::chars_of(html);
    let mut out = String::new();
    let mut in_tag = false;
    let mut i: usize = 0;
    assert(html@.skip(0) == html@);
    assert(out@ + outside_tags(html@, false) == outside_tags(html@, false));
    while i < v.len()
        invariant
            v@ == html@,
            i <= v@.len(),
            out@ + outside_tags(html@.skip(i as int), in_tag) == outside_tags(html@, false),
        decreases v@.len() - i,
    {
        let c = v[i];
        let ghost rest = html@.skip(i as int);
        assert(rest[0] == c);
        assert(rest.drop_first() == html@.skip(i + 1));
        if c == '<' {
            in_tag = true;
        } else if c == '>' {
            in_tag = false;
        } else if !in_tag {
            let ghost before = out@;
            out.push(c);
            assert(out@ + outside_tags(html@.skip(i + 1), in_tag) == before + (seq![c]
                + outside_tags(html@.skip(i + 1), in_tag)));
        }
        i = i + 1;
    }
    assert(out@ + Seq::<char>::empty() == out@);
    split::join(&split::words(out.as_str()), " ")
}

/// What is made of an HTML file.
pub open spec fn html_extract(path: Seq<char>, raw: Seq<char>) -> ExtractedView {
    ExtractedView {
        title: paths::stem_of(path),
        source_url: None,
        text: untagged(raw),
        kind: ContentKind::Html,
        notes: seq!["html tags stripped with a simple filter"@],
    }
}

/// One note.
fn one_note(s: &str) -> (r: Vec<String>)
    ensures
        text::views(r@) == seq![s@],
{
    let mut v: Vec<String> = Vec::new();
    text::push_text(&mut v, s.to_owned());
    assert(text::views(v@) == seq![s@]);
    v
}

/// What is made of an HTML file.
pub fn extract_html(path: &str, raw: &str) -> (r: Extracted)
    ensures
        r@ == html_extract(path@, raw@),
{
    Extracted {
        title: paths::file_stem(path),
        source_url: None,
        text: strip_tags(raw),
        kind: ContentKind::Html,
        notes: one_note("html tags stripped with a simple filter"),
    }
}

/// What is made of the text of a PDF document.
pub open spec fn pdf_extract(path: Seq<char>, body: Seq<char>) -> ExtractedView {
    ExtractedView {
        title: paths::stem_of(path),
        source_url: None,
        text: body,
        kind: ContentKind::Pdf,
        notes: seq!["pdf-extract"@],
    }
}

/// What is made of the text of a PDF document.
pub fn extract_pdf(path: &str, body: String) -> (r: Extracted)
    ensures
        r@ == pdf_extract(path@, body@),
{
    Extracted {
        title: paths::file_stem(path),
        source_url: None,
        text: body,
        kind: ContentKind::Pdf,
        notes: one_note("pdf-extract"),
    }
}

/// `s` cut to `max` characters, with a mark where something was cut off.
pub open spec fn truncated(s: Seq<char>, max: int) -> Seq<char> {
    if s.len() <= max {
        s
    } else {
        s.take(max) + "\n\n…[truncated for length]\n"@
    }
}

/// Truncate text for AI prompts.
pub fn truncate_chars(text: &str, max: usize) -> (r: String)
    ensures
        r@ == truncated(text@, max as int),
{
    if text.unicode_len() <= max {
        return text.to_owned();
    }
    let mut t = text::clip(text, max);
    t.append("\n\n…[truncated for length]\n");
    t
}

/// The length of a text in bytes.
pub open spec fn byte_len(s: Seq<char>) -> int {
    encode_utf8(s).len() as int
}

/// The line of a transcript is fit to name a project.
pub open spec fn names_project(line: Seq<char>) -> bool {
    24 <= byte_len(line) <= 120 && !text::begins(line, "("@) && slug::slug_of(line) != "inbox"@
}

/// The first line, trimmed, that is fit to name a project.
pub open spec fn telling_line(lines: Seq<Seq<char>>) -> Option<Seq<char>>
    decreases lines.len(),
{
    if lines.len() == 0 {
        None
    } else if names_project(text::trimmed(lines[0])) {
        Some(text::trimmed(lines[0]))
    } else {
        telling_line(lines.drop_first())
    }
}

/// The line of a transcript that names the project, if there is a transcript and one
/// of its lines is fit for it.
pub open spec fn transcript_title(body: Seq<char>) -> Option<Seq<char>> {
    match search::found(body, "## Transcript"@) {
        Some(i) => telling_line(split::lines_of(body.skip(i + "## Transcript"@.len()))),
        None => None,
    }
}

/// The title names the project: it is long enough, and no placeholder.
pub open spec fn telling_title(title: Option<Seq<char>>) -> Option<Seq<char>> {
    match title {
        Some(t) => {
            let t = text::trimmed(t);
            if byte_len(t) >= 3 && t != "image"@ && t != "video"@ && t != "audio"@ && t != "clip"@ {
                Some(t)
            } else {
                None
            }
        },
        None => None,
    }
}

/// `s` without any `www.` in front.
pub open spec fn without_www(s: Seq<char>) -> Seq<char>
    decreases s.len(),
{
    if s.len() >= 4 && s.take(4) == "www."@ {
        without_www(s.skip(4))
    } else {
        s
    }
}

/// What follows `https://` or `http://`.
pub open spec fn after_scheme(url: Seq<char>) -> Option<Seq<char>> {
    if text::begins(url, "https://"@) {
        Some(url.skip("https://"@.len() as int))
    } else if text::begins(url, "http://"@) {
        Some(url.skip("http://"@.len() as int))
    } else {
        None
    }
}

/// The host of a web address, without `www.`.
pub open spec fn host_of(url: Seq<char>) -> Option<Seq<char>> {
    match after_scheme(url) {
        Some(u) => Some(without_www(split::pieces(u, '/')[0])),
        None => None,
    }
}

/// A line without the marks of a heading.
pub open spec fn bare_line(line: Seq<char>) -> Seq<char> {
    text::trimmed(text::skip_front(text::trimmed(line), text::equal_to('#')))
}

/// The first line, without the marks of a heading, that is fit for a title.
pub open spec fn opening_line(lines: Seq<Seq<char>>) -> Option<Seq<char>>
    decreases lines.len(),
{
    if lines.len() == 0 {
        None
    } else {
        let l = bare_line(lines[0]);
        if 8 <= byte_len(l) <= 80 && !text::begins(l, "{"@) && !text::begins(l, "Media metadata"@) {
            Some(l)
        } else {
            opening_line(lines.drop_first())
        }
    }
}

/// What a project is called when nobody says it: after a line of the transcript, the
/// title, the host of the address, the first line of the text, or the inbox.
pub open spec fn guessed_title(
    title: Option<Seq<char>>,
    url: Option<Seq<char>>,
    body: Seq<char>,
) -> Seq<char> {
    if transcript_title(body) is Some {
        transcript_title(body).unwrap()
    } else if telling_title(title) is Some {
        telling_title(title).unwrap()
    } else if url is Some && host_of(url.unwrap()) is Some {
        host_of(url.unwrap()).unwrap()
    } else if opening_line(split::lines_of(body)) is Some {
        opening_line(split::lines_of(body)).unwrap()
    } else {
        "Inbox"@
    }
}

/// The host of a web address, without `www.`.
pub fn url_host(url: &str) -> (r: Option<String>)
    ensures
        text::opt_view(r) == host_of(url@),
{
    let u = match text::after_prefix(url, "https://") {
        Some(u) => u,
        None => match text::after_prefix(url, "http://") {
            Some(u) => u,
            None => {
                return None;
            },
        },
    };
    let parts = split::split(u, '/');
    let ghost first = split::pieces(u@, '/')[0];
    assert(text::views(parts@)[0] == parts@[0]@);
    let mut host: &str = parts[0].as_str();
    proof {
        reveal_strlit("www.");
    }
    loop
        invariant
            "www."@.len() == 4,
            without_www(host@) == without_www(first),
        ensures
            host@ == without_www(first),
        decreases host@.len(),
    {
        match text::after_prefix(host, "www.") {
            Some(h) => {
                host = h;
            },
            None => {
                break;
            },
        }
    }
    Some(host.to_owned())
}

fn first_telling_line(body: &str) -> (r: Option<String>)
    ensures
        text::opt_view(r) == telling_line(split::lines_of(body@)),
{
    let lines = split::lines(body);
    let ghost all = text::views(lines@);
    let mut i: usize = 0;
    assert(all.skip(0) == all);
    while i < lines.len()
        invariant
            i <= lines@.len(),
            all == text::views(lines@),
            all == split::lines_of(body@),
            telling_line(all) == telling_line(all.skip(i as int)),
        decreases lines@.len() - i,
    {
        let ghost rest = all.skip(i as int);
        assert(rest[0] == lines@[i as int]@);
        assert(rest.drop_first() == all.skip(i + 1));
        let line = text::trim(lines[i].as_str());
        let n: usize = line.as_bytes().len();
        if n >= 24 && n <= 120 && !text::starts_with(line, "(") {
            let s = slug::slugify(line);
            if !text::same(s.as_str(), "inbox") {
                return Some(line.to_owned());
            }
        }
        i = i + 1;
    }
    None
}

fn first_opening_line(body: &str) -> (r: Option<String>)
    ensures
        text::opt_view(r) == opening_line(split::lines_of(body@)),
{
    let lines = split::lines(body);
    let ghost all = text::views(lines@);
    let mut i: usize = 0;
    assert(all.skip(0) == all);
    while i < lines.len()
        invariant
            i <= lines@.len(),
            all == text::views(lines@),
            all == split::lines_of(body@),
            opening_line(all) == opening_line(all.skip(i as int)),
        decreases lines@.len() - i,
    {
        let ghost rest = all.skip(i as int);
        assert(rest[0] == lines@[i as int]@);
        assert(rest.drop_first() == all.skip(i + 1));
        let line = text::trim(text::strip_front(text::trim(lines[i].as_str()), '#'));
        let n: usize = line.as_bytes().len();
        if n >= 8 && n <= 80 && !text::starts_with(line, "{") && !text::starts_with(
            line,
            "Media metadata",
        ) {
            return Some(line.to_owned());
        }
        i = i + 1;
    }
    None
}

/// Slug and title of a project, guessed from title, address and text when Grok is
/// offline.
pub fn heuristic_project(title: Option<&str>, url: Option<&str>, body: &str) -> (r: (String, String))
    ensures
        r.1@ == guessed_title(text::opt_str(title), text::opt_str(url), body@),
        r.0@ == slug::slug_of(r.1@),
{
    if let Some(idx) = search::find(body, "## Transcript") {
        let n: usize = body.unicode_len();
        let m: usize = "## Transcript".unicode_len();
        assert(body@.subrange(idx + m, n as int) == body@.skip(idx + m));
        let after = body.substring_char(idx + m, n);
        if let Some(line) = first_telling_line(after) {
            return (slug::slugify(line.as_str()), line);
        }
    }
    if let Some(t) = title {
        let t = text::trim(t);
        if t.as_bytes().len() >= 3 && !text::same(t, "image") && !text::same(t, "video")
            && !text::same(t, "audio") && !text::same(t, "clip") {
            return (slug::slugify(t), t.to_owned());
        }
    }
    if let Some(u) = url {
        if let Some(host) = url_host(u) {
            return (slug::slugify(host.as_str()), host);
        }
    }
    if let Some(line) = first_opening_line(body) {
        return (slug::slugify(line.as_str()), line);
    }
    proof {
        slug::inbox_is_its_own_slug();
    }
    ("inbox".to_owned(), "Inbox".to_owned())
}

/// Why a file cannot be read.
pub open spec fn unreadable(path: Seq<char>, exists_: bool, is_file: bool) -> Option<Seq<char>> {
    if !exists_ {
        Some("missing file "@ + path)
    } else if !is_file {
        Some("not a file "@ + path)
    } else {
        None
    }
}

/// Refuses a path that is not that of a file, given what was seen of it.
pub fn require_readable(path: &str, exists_: bool, is_file: bool) -> (r: Result<(), String>)
    ensures
        match r {
            Ok(_) => unreadable(path@, exists_, is_file) is None,
            Err(e) => unreadable(path@, exists_, is_file) == Some(e@),
        },
{
    if !exists_ {
        return Err(glue("missing file ", path));
    }
    if !is_file {
        return Err(glue("not a file ", path));
    }
    Ok(())
}

/// No angle bracket is left of the tags.
proof fn lemma_outside_tags_plain(s: Seq<char>, in_tag: bool)
    ensures
        forall|i: int|
            0 <= i < outside_tags(s, in_tag).len() ==> (#[trigger] outside_tags(s, in_tag)[i]) != '<'
                && outside_tags(s, in_tag)[i] != '>',
    decreases s.len(),
{
    if s.len() > 0 {
        lemma_outside_tags_plain(s.drop_first(), true);
        lemma_outside_tags_plain(s.drop_first(), false);
        let r = outside_tags(s.drop_first(), in_tag);
        let all = outside_tags(s, in_tag);
        if s[0] == '<' {
            assert(all == outside_tags(s.drop_first(), true));
        } else if s[0] == '>' {
            assert(all == outside_tags(s.drop_first(), false));
        } else if in_tag {
            assert(all == r);
        } else {
            assert(all == seq![s[0]] + r);
            assert forall|i: int| 0 <= i < all.len() implies (#[trigger] all[i]) != '<' && all[i]
                != '>' by {
                if i > 0 {
                    assert(all[i] == r[i - 1]);
                }
            }
        }
    }
}

/// What holds of every character holds of the characters of every word.
proof fn lemma_words_within(s: Seq<char>, p: spec_fn(char) -> bool)
    requires
        forall|i: int| 0 <= i < s.len() ==> p(#[trigger] s[i]),
    ensures
        forall|w: int, i: int|
            0 <= w < split::words_of(s).len() && 0 <= i < split::words_of(s)[w].len() ==> p(
                #[trigger] split::words_of(s)[w][i],
            ),
    decreases s.len(),
{
    if s.len() == 0 {
    } else if text::is_white(s[0]) {
        let t = s.drop_first();
        assert forall|i: int| 0 <= i < t.len() implies p(#[trigger] t[i]) by {
            assert(t[i] == s[i + 1]);
        }
        lemma_words_within(t, p);
        assert(split::words_of(s) == split::words_of(t));
    } else {
        let n = split::word_len(s);
        if 0 < n <= s.len() {
            let t = s.skip(n);
            assert forall|i: int| 0 <= i < t.len() implies p(#[trigger] t[i]) by {
                assert(t[i] == s[i + n]);
            }
            lemma_words_within(t, p);
            let all = split::words_of(s);
            assert forall|w: int, i: int| 0 <= w < all.len() && 0 <= i < all[w].len() implies p(
                #[trigger] all[w][i],
            ) by {
                if w == 0 {
                    assert(all[w][i] == s[i]);
                } else {
                    assert(all[w] == split::words_of(t)[w - 1]);
                    assert(p(split::words_of(t)[w - 1][i]));
                }
            }
        }
    }
}

/// What holds of every character of the parts and of what stands between them holds
/// of every character of the whole.
proof fn lemma_joined_within(parts: Seq<Seq<char>>, sep: Seq<char>, p: spec_fn(char) -> bool)
    requires
        forall|w: int, i: int|
            0 <= w < parts.len() && 0 <= i < parts[w].len() ==> p(#[trigger] parts[w][i]),
        forall|i: int| 0 <= i < sep.len() ==> p(#[trigger] sep[i]),
    ensures
        forall|i: int|
            0 <= i < split::joined(parts, sep).len() ==> p(#[trigger] split::joined(parts, sep)[i]),
    decreases parts.len(),
{
    if parts.len() == 1 {
        assert forall|i: int| 0 <= i < parts[0].len() implies p(#[trigger] split::joined(parts, sep)[i]) by {
            assert(p(parts[0][i]));
        }
    } else if parts.len() > 1 {
        let d = parts.drop_last();
        assert forall|w: int, i: int| 0 <= w < d.len() && 0 <= i < d[w].len() implies p(
            #[trigger] d[w][i],
        ) by {
            assert(p(parts[w][i]));
        }
        lemma_joined_within(d, sep, p);
        let a = split::joined(d, sep);
        let all = split::joined(parts, sep);
        let z = parts[parts.len() - 1];
        assert forall|i: int| 0 <= i < all.len() implies p(#[trigger] all[i]) by {
            if i < a.len() {
                assert(all[i] == a[i]);
            } else if i < a.len() + sep.len() {
                assert(all[i] == sep[i - a.len()]);
            } else {
                assert(all[i] == z[i - a.len() - sep.len()]);
            }
        }
    }
}

/// Stripping tags leaves no angle bracket.
pub proof fn stripping_leaves_no_brackets(html: Seq<char>)
    ensures
        forall|i: int|
            0 <= i < untagged(html).len() ==> (#[trigger] untagged(html)[i]) != '<' && untagged(html)[i]
                != '>',
{
    reveal_strlit(" ");
    let p = |c: char| c != '<' && c != '>';
    let o = outside_tags(html, false);
    lemma_outside_tags_plain(html, false);
    assert forall|i: int| 0 <= i < o.len() implies p(#[trigger] o[i]) by {}
    lemma_words_within(o, p);
    lemma_joined_within(split::words_of(o), " "@, p);
    let u = untagged(html);
    assert forall|i: int| 0 <= i < u.len() implies (#[trigger] u[i]) != '<' && u[i] != '>' by {
        assert(p(u[i]));
    }
}

/// A guessed project can be kept under its slug: it is safe as the name of a
/// directory.
pub proof fn guessed_slug_is_safe(title: Option<Seq<char>>, url: Option<Seq<char>>, body: Seq<char>)
    ensures
        0 < slug::slug_of(guessed_title(title, url, body)).len() <= 64,
        forall|i: int|
            0 <= i < slug::slug_of(guessed_title(title, url, body)).len() ==> slug::slug_char(
                #[trigger] slug::slug_of(guessed_title(title, url, body))[i],
            ) || slug::slug_of(guessed_title(title, url, body))[i] == '-',
{
    slug::slug_is_a_safe_name(guessed_title(title, url, body));
}

/// Text within the limit is handed on whole, and of longer text all that fits.
pub proof fn truncation_keeps_the_beginning(s: Seq<char>, max: int)
    requires
        0 <= max,
    ensures
        s.len() <= max ==> truncated(s, max) == s,
        s.len() > max ==> text::begins(truncated(s, max), s.take(max)),
{
    if s.len() > max {
        assert(truncated(s, max).take(max) == s.take(max));
    }
}

/// Nothing that was captured is lost: the selection, the page and the address of the image
/// stand in the text, as they are and under their headings, whatever else was captured,
/// unless they are blank. The Markdown of a page stands for its text. Title and address stay
/// what they were, and the type of the content is noted.
pub proof fn what_was_captured_is_kept(p: BrowserPayload)
    ensures
        ({
            let r = payload_extract(p);
            &&& r.title == text::opt_view(p.title)
            &&& r.source_url == text::opt_view(p.url)
            &&& r.kind == ContentKind::UrlClip
            &&& p.selection matches Some(s) ==> text::blank(s@) || holds(
                r.text,
                "## Selection\n\n"@,
                s@,
            )
            &&& p.page_markdown matches Some(s) ==> text::blank(s@) || holds(
                r.text,
                "## Page (Markdown)\n\n"@,
                s@,
            )
            &&& p.page_markdown is None ==> (p.page_text matches Some(s) ==> text::blank(s@)
                || holds(r.text, "## Page text\n\n"@, s@))
            &&& p.image_url matches Some(s) ==> holds(r.text, "## Image URL\n\n"@, s@)
            &&& p.content_type matches Some(c) ==> r.notes.len() == 1 && search::occurs(
                r.notes[0],
                c@,
            )
            &&& p.content_type is None ==> r.notes.len() == 0
        }),
{
    let parts = selection_part(p) + page_part(p) + image_part(p);
    let none = Seq::<char>::empty();
    if let Some(s) = p.selection {
        lemma_part_is_kept(parts, 0, "## Selection\n\n"@, s@);
    }
    let n = selection_part(p).len() as int;
    if let Some(s) = p.page_markdown {
        lemma_part_is_kept(parts, n, "## Page (Markdown)\n\n"@, s@);
    } else if let Some(s) = p.page_text {
        lemma_part_is_kept(parts, n, "## Page text\n\n"@, s@);
    }
    if let Some(s) = p.image_url {
        let k = n + page_part(p).len();
        assert(parts[k] == "## Image URL\n\n"@ + s@);
        lemma_joined_keeps(parts, k, "## Image URL\n\n"@, s@);
    }
    if let Some(c) = p.content_type {
        search::lemma_has_middle("content_type="@, c@, none);
        assert("content_type="@ + c@ + none == "content_type="@ + c@);
    }
}

/// The text holds `s`, right behind a heading.
pub open spec fn holds(body: Seq<char>, heading: Seq<char>, s: Seq<char>) -> bool {
    search::occurs(body, heading + s) && search::occurs(body, s)
}

/// A part with a heading stands in the text, with what it says.
proof fn lemma_joined_keeps(parts: Seq<Seq<char>>, i: int, head: Seq<char>, s: Seq<char>)
    requires
        0 <= i < parts.len(),
        parts[i] == head + s,
    ensures
        holds(split::joined(parts, "\n\n"@), head, s),
{
    search::lemma_joined_has(parts, "\n\n"@, i);
    search::lemma_occurs_itself(s);
    search::lemma_occurs_add(head, s);
    search::lemma_occurs_trans(split::joined(parts, "\n\n"@), head + s, s);
}

proof fn lemma_part_is_kept(parts: Seq<Seq<char>>, i: int, head: Seq<char>, s: Seq<char>)
    requires
        text::trimmed(s).len() > 0 ==> 0 <= i < parts.len() && parts[i] == head + s,
    ensures
        text::blank(s) || holds(split::joined(parts, "\n\n"@), head, s),
{
    text::trimming_takes_white_space_only(s);
    if text::trimmed(s).len() > 0 {
        lemma_joined_keeps(parts, i, head, s);
    }
}

/// What was captured stands in one order: the selection, then the page, then the address of
/// the image, each under its heading and with an empty line between them.
pub proof fn what_was_captured_is_ordered(p: BrowserPayload)
    requires
        p.selection matches Some(s) && !text::blank(s@),
        p.page_markdown is None,
        p.page_text matches Some(s) && !text::blank(s@),
        p.image_url is Some,
    ensures
        payload_extract(p).text == "## Selection\n\n"@ + p.selection.unwrap()@ + "\n\n"@
            + "## Page text\n\n"@ + p.page_text.unwrap()@ + "\n\n"@ + "## Image URL\n\n"@
            + p.image_url.unwrap()@,
{
    text::trimming_takes_white_space_only(p.selection.unwrap()@);
    text::trimming_takes_white_space_only(p.page_text.unwrap()@);
    let a = "## Selection\n\n"@ + p.selection.unwrap()@;
    let b = "## Page text\n\n"@ + p.page_text.unwrap()@;
    let c = "## Image URL\n\n"@ + p.image_url.unwrap()@;
    let parts = selection_part(p) + page_part(p) + image_part(p);
    assert(parts == seq![a].push(b).push(c));
    split::lemma_joined_push(seq![a].push(b), "\n\n"@, c);
    split::lemma_joined_push(seq![a], "\n\n"@, b);
}

/// Text without angle brackets stands outside all tags.
proof fn lemma_outside_plain(a: Seq<char>, rest: Seq<char>)
    requires
        forall|i: int| 0 <= i < a.len() ==> (#[trigger] a[i]) != '<' && a[i] != '>',
    ensures
        outside_tags(a + rest, false) == a + outside_tags(rest, false),
    decreases a.len(),
{
    if a.len() == 0 {
        assert(a + rest == rest);
        assert(a + outside_tags(rest, false) == outside_tags(rest, false));
    } else {
        let d = a.drop_first();
        assert forall|i: int| 0 <= i < d.len() implies (#[trigger] d[i]) != '<' && d[i] != '>' by {
            assert(d[i] == a[i + 1]);
        }
        lemma_outside_plain(d, rest);
        assert((a + rest).drop_first() == d + rest);
        assert((a + rest)[0] == a[0]);
        assert(seq![a[0]] + (d + outside_tags(rest, false)) == a + outside_tags(rest, false));
    }
}

/// What stands between brackets is passed over.
proof fn lemma_inside_tag(tag: Seq<char>, rest: Seq<char>)
    requires
        forall|i: int| 0 <= i < tag.len() ==> #[trigger] tag[i] != '>',
    ensures
        outside_tags(tag + seq!['>'] + rest, true) == outside_tags(rest, false),
    decreases tag.len(),
{
    let w = tag + seq!['>'] + rest;
    if tag.len() == 0 {
        assert(w[0] == '>');
        assert(w.drop_first() == rest);
    } else {
        let d = tag.drop_first();
        assert forall|i: int| 0 <= i < d.len() implies #[trigger] d[i] != '>' by {
            assert(d[i] == tag[i + 1]);
        }
        lemma_inside_tag(d, rest);
        assert(w[0] == tag[0]);
        assert(w.drop_first() == d + seq!['>'] + rest);
    }
}

/// A tag leaves no trace: text with a tag in it says what it says without the tag. Text
/// without tags keeps all its words.
pub proof fn tags_leave_no_trace(before: Seq<char>, tag: Seq<char>, after: Seq<char>)
    requires
        forall|i: int| 0 <= i < before.len() ==> (#[trigger] before[i]) != '<' && before[i] != '>',
        forall|i: int| 0 <= i < tag.len() ==> #[trigger] tag[i] != '>',
    ensures
        untagged(before + seq!['<'] + tag + seq!['>'] + after) == untagged(before + after),
        untagged(before) == split::joined(split::words_of(before), " "@),
{
    let inner = seq!['<'] + (tag + seq!['>'] + after);
    let all = before + seq!['<'] + tag + seq!['>'] + after;
    assert(all == before + inner);
    lemma_outside_plain(before, inner);
    assert(inner.drop_first() == tag + seq!['>'] + after);
    lemma_inside_tag(tag, after);
    lemma_outside_plain(before, after);
    let none = Seq::<char>::empty();
    lemma_outside_plain(before, none);
    assert(before + none == before);
}

/// A file of text is handed on whole, under the name of the file, whether it was taken for
/// text or for something unknown; only an envelope is read otherwise.
pub proof fn text_is_kept_whole(path: Seq<char>, kind: ContentKind, body: Seq<char>)
    ensures
        plain_extract(path, kind, body).text == body,
        plain_extract(path, kind, body).kind == kind,
        plain_extract(path, kind, body).title == paths::stem_of(path),
        plain_extract(path, kind, body).source_url is None,
        clip_extract(path, kind, body, None).text == body,
        clip_extract(path, kind, body, None).title == paths::stem_of(path),
        clip_extract(path, kind, body, None).source_url is None,
        texty(body) ==> clip_extract(path, kind, body, None).kind == ContentKind::Text,
        !texty(body) ==> clip_extract(path, kind, body, None).kind == kind,
        html_extract(path, body).title == paths::stem_of(path),
        html_extract(path, body).kind == ContentKind::Html,
        pdf_extract(path, body).text == body,
        pdf_extract(path, body).title == paths::stem_of(path),
        pdf_extract(path, body).kind == ContentKind::Pdf,
        pdf_extract(path, body).source_url is None,
{
}

/// Text with no control character at its beginning reads like text; nothing does not, nor
/// does what starts with eight of them.
pub proof fn control_characters_tell(s: Seq<char>)
    ensures
        s.len() == 0 ==> !texty(s),
        s.len() > 0 && (forall|i: int| 0 <= i < s.len() && i < 512 ==> !is_control(#[trigger] s[i]))
            ==> texty(s),
        s.len() >= 8 && (forall|i: int| 0 <= i < 8 ==> is_control(#[trigger] s[i])) ==> !texty(s),
{
    let f = |c: char| is_control(c);
    let c = text::clipped(s, 512);
    if s.len() > 0 && (forall|i: int| 0 <= i < s.len() && i < 512 ==> !is_control(#[trigger] s[i])) {
        assert forall|i: int| 0 <= i < c.len() implies !f(#[trigger] c[i]) by {
            assert(c[i] == s[i]);
        }
        lemma_filter_none(c, f);
    }
    if s.len() >= 8 && (forall|i: int| 0 <= i < 8 ==> is_control(#[trigger] s[i])) {
        let a = c.take(8);
        let b = c.skip(8);
        assert(c == a + b);
        assert forall|i: int| 0 <= i < a.len() implies f(#[trigger] a[i]) by {
            assert(a[i] == s[i]);
        }
        lemma_filter_all(a, f);
        vstd::seq::Seq::filter_distributes_over_add(a, b, f);
    }
}

proof fn lemma_filter_none(s: Seq<char>, f: spec_fn(char) -> bool)
    requires
        forall|i: int| 0 <= i < s.len() ==> !f(#[trigger] s[i]),
    ensures
        s.filter(f).len() == 0,
    decreases s.len(),
{
    reveal(Seq::filter);
    if s.len() > 0 {
        let d = s.drop_last();
        assert forall|i: int| 0 <= i < d.len() implies !f(#[trigger] d[i]) by {
            assert(d[i] == s[i]);
        }
        lemma_filter_none(d, f);
        assert(!f(s[s.len() - 1]));
    }
}

proof fn lemma_filter_all(s: Seq<char>, f: spec_fn(char) -> bool)
    requires
        forall|i: int| 0 <= i < s.len() ==> f(#[trigger] s[i]),
    ensures
        s.filter(f).len() == s.len(),
    decreases s.len(),
{
    reveal(Seq::filter);
    if s.len() > 0 {
        let d = s.drop_last();
        assert forall|i: int| 0 <= i < d.len() implies f(#[trigger] d[i]) by {
            assert(d[i] == s[i]);
        }
        lemma_filter_all(d, f);
        assert(f(s[s.len() - 1]));
    }
}

/// The host of a web address is what stands between the scheme and the first slash, without
/// a `www.` in front; what is no web address has none.
pub proof fn hosts_stand_behind_the_scheme(host: Seq<char>, rest: Seq<char>)
    requires
        forall|i: int| 0 <= i < host.len() ==> #[trigger] host[i] != '/',
        !text::begins(host, "www."@),
    ensures
        host_of("https://"@ + host) == Some(host),
        host_of("http://"@ + host) == Some(host),
        host_of("https://"@ + host + seq!['/'] + rest) == Some(host),
        host_of("http://"@ + host + seq!['/'] + rest) == Some(host),
        host_of("https://"@ + ("www."@ + host) + seq!['/'] + rest) == Some(host),
{
    reveal_strlit("www.");
    reveal_strlit("https://");
    reveal_strlit("http://");
    let w = "www."@ + host;
    assert forall|i: int| 0 <= i < w.len() implies #[trigger] w[i] != '/' by {
        if i < 4 {
            assert(w[i] == "www."@[i]);
        } else {
            assert(w[i] == host[i - 4]);
        }
    }
    assert(w.take(4) == "www."@);
    assert(w.skip(4) == host);
    assert(without_www(host) == host);
    assert(without_www(w) == host);
    lemma_host("https://"@, host, rest);
    lemma_host("http://"@, host, rest);
    lemma_host("https://"@, w, rest);
    let a = "http://"@ + host;
    let b = "http://"@ + host + seq!['/'] + rest;
    assert(a[4] == "http://"@[4]);
    assert(b[4] == "http://"@[4]);
    assert(a.len() >= 8 ==> a.take(8)[4] == a[4]);
    assert(b.take(8)[4] == b[4]);
    assert("https://"@[4] == 's');
}

proof fn lemma_host(scheme: Seq<char>, host: Seq<char>, rest: Seq<char>)
    requires
        forall|i: int| 0 <= i < host.len() ==> #[trigger] host[i] != '/',
    ensures
        text::begins(scheme + host, scheme),
        text::begins(scheme + host + seq!['/'] + rest, scheme),
        split::pieces((scheme + host).skip(scheme.len() as int), '/')[0] == host,
        split::pieces((scheme + host + seq!['/'] + rest).skip(scheme.len() as int), '/')[0] == host,
{
    let a = scheme + host;
    let b = scheme + host + seq!['/'] + rest;
    let n = scheme.len() as int;
    assert(a.take(n) == scheme);
    assert(b.take(n) == scheme);
    assert(a.skip(n) == host);
    assert(b.skip(n) == host + seq!['/'] + rest);
    split::lemma_first_of_is(host, '/', host.len() as int);
    split::lemma_pieces_add(host, rest, '/');
}

/// A project that nobody names is called after the first of these that there is: a fit line
/// of the transcript, a telling title, the host of the address.
pub proof fn projects_are_called_after_the_item(
    title: Option<Seq<char>>,
    url: Option<Seq<char>>,
    body: Seq<char>,
)
    requires
        !search::occurs(body, "## Transcript"@),
    ensures
        title matches Some(t) && byte_len(text::trimmed(t)) >= 3 && text::trimmed(t) != "image"@
            && text::trimmed(t) != "video"@ && text::trimmed(t) != "audio"@ && text::trimmed(t)
            != "clip"@ ==> guessed_title(title, url, body) == text::trimmed(title.unwrap()),
        title is None && url is Some && host_of(url.unwrap()) is Some ==> guessed_title(
            title,
            url,
            body,
        ) == host_of(url.unwrap()).unwrap(),
        title is None && url is None && body.len() == 0 ==> guessed_title(title, url, body)
            == "Inbox"@,
{
    search::lemma_found(body, "## Transcript"@);
}

/// A project without anything else to call it after is called after the first line of the
/// text that is fit for a title, without the marks of a heading: one of 8 to 80 bytes that is
/// no JSON and no metadata.
pub proof fn opening_lines_name_the_project(
    body: Seq<char>,
    before: Seq<Seq<char>>,
    line: Seq<char>,
    after: Seq<Seq<char>>,
)
    requires
        !search::occurs(body, "## Transcript"@),
        split::lines_of(body) == before + seq![line] + after,
        8 <= byte_len(bare_line(line)) <= 80,
        !text::begins(bare_line(line), "{"@),
        !text::begins(bare_line(line), "Media metadata"@),
        forall|i: int|
            0 <= i < before.len() ==> byte_len(bare_line(#[trigger] before[i])) < 8 || byte_len(
                bare_line(before[i]),
            ) > 80 || text::begins(bare_line(before[i]), "{"@) || text::begins(
                bare_line(before[i]),
                "Media metadata"@,
            ),
    ensures
        guessed_title(None, None, body) == bare_line(line),
{
    search::lemma_found(body, "## Transcript"@);
    lemma_opening(before, line, after);
}

proof fn lemma_opening(before: Seq<Seq<char>>, line: Seq<char>, after: Seq<Seq<char>>)
    requires
        8 <= byte_len(bare_line(line)) <= 80,
        !text::begins(bare_line(line), "{"@),
        !text::begins(bare_line(line), "Media metadata"@),
        forall|i: int|
            0 <= i < before.len() ==> byte_len(bare_line(#[trigger] before[i])) < 8 || byte_len(
                bare_line(before[i]),
            ) > 80 || text::begins(bare_line(before[i]), "{"@) || text::begins(
                bare_line(before[i]),
                "Media metadata"@,
            ),
    ensures
        opening_line(before + seq![line] + after) == Some(bare_line(line)),
    decreases before.len(),
{
    let all = before + seq![line] + after;
    if before.len() > 0 {
        let d = before.drop_first();
        assert forall|i: int| 0 <= i < d.len() implies byte_len(bare_line(#[trigger] d[i])) < 8
            || byte_len(bare_line(d[i])) > 80 || text::begins(bare_line(d[i]), "{"@)
            || text::begins(bare_line(d[i]), "Media metadata"@) by {
            assert(d[i] == before[i + 1]);
        }
        lemma_opening(d, line, after);
        assert(all.drop_first() == d + seq![line] + after);
        assert(all[0] == before[0]);
    } else {
        assert(all[0] == line);
    }
}

/// The line cannot name a project: it is too short or too long, is a stage direction, or has
/// no word.
pub open spec fn unfit(line: Seq<char>) -> bool {
    byte_len(line) < 24 || byte_len(line) > 120 || text::begins(line, "("@) || slug::slug_of(line)
        == "inbox"@
}

/// The first line of a transcript that is fit for it names the project, before anything else
/// does: one of 24 to 120 bytes that is no stage direction and has words.
pub proof fn transcripts_name_the_project(
    front: Seq<char>,
    rest: Seq<char>,
    before: Seq<Seq<char>>,
    line: Seq<char>,
    after: Seq<Seq<char>>,
    title: Option<Seq<char>>,
    url: Option<Seq<char>>,
)
    requires
        search::found(front + "## Transcript"@ + rest, "## Transcript"@) == Some(
            front.len() as int,
        ),
        split::lines_of(rest) == before + seq![line] + after,
        24 <= byte_len(text::trimmed(line)) <= 120,
        !text::begins(text::trimmed(line), "("@),
        slug::slug_of(text::trimmed(line)) != "inbox"@,
        forall|i: int|
            0 <= i < before.len() ==> unfit(text::trimmed(#[trigger] before[i])),
    ensures
        guessed_title(title, url, front + "## Transcript"@ + rest) == text::trimmed(line),
{
    let body = front + "## Transcript"@ + rest;
    assert(body.skip(front.len() as int + "## Transcript"@.len()) == rest);
    lemma_telling(before, line, after);
}

proof fn lemma_telling(before: Seq<Seq<char>>, line: Seq<char>, after: Seq<Seq<char>>)
    requires
        names_project(text::trimmed(line)),
        forall|i: int| 0 <= i < before.len() ==> unfit(text::trimmed(#[trigger] before[i])),
    ensures
        telling_line(before + seq![line] + after) == Some(text::trimmed(line)),
    decreases before.len(),
{
    let all = before + seq![line] + after;
    if before.len() > 0 {
        let d = before.drop_first();
        assert forall|i: int| 0 <= i < d.len() implies unfit(text::trimmed(#[trigger] d[i])) by {
            assert(d[i] == before[i + 1]);
        }
        lemma_telling(d, line, after);
        assert(all.drop_first() == d + seq![line] + after);
        assert(all[0] == before[0]);
    } else {
        assert(all[0] == line);
    }
}

/// A title that says nothing counts as none: one of fewer than three bytes, or the name of a
/// kind of file.
pub proof fn placeholders_are_no_titles(title: Seq<char>, url: Option<Seq<char>>, body: Seq<char>)
    requires
        ({
            let t = text::trimmed(title);
            byte_len(t) < 3 || t == "image"@ || t == "video"@ || t == "audio"@ || t == "clip"@
        }),
    ensures
        guessed_title(Some(title), url, body) == guessed_title(None, url, body),
{
}

/// What is cut off for its length is marked at its end.
pub proof fn cuts_are_marked(s: Seq<char>, max: int)
    requires
        0 <= max < s.len(),
    ensures
        text::ends(truncated(s, max), "…[truncated for length]\n"@),
        truncated(s, max).len() > max,
{
    reveal_strlit("\n\n…[truncated for length]\n");
    reveal_strlit("…[truncated for length]\n");
    let t = truncated(s, max);
    let m = "…[truncated for length]\n"@;
    assert(t.skip(t.len() - m.len()) == m);
}

/// What is blank counts as not captured, and so does the text of a page whose Markdown was
/// captured. Where nothing was captured there is no text, and one thing alone is all the text.
pub proof fn nothing_is_made_up(p: BrowserPayload)
    ensures
        p.selection matches Some(s) && text::blank(s@) ==> payload_extract(p) == payload_extract(
            (BrowserPayload { selection: None, ..p }),
        ),
        p.page_markdown is Some ==> payload_extract(p) == payload_extract(
            (BrowserPayload { page_text: None, ..p }),
        ),
        p.page_text matches Some(s) && text::blank(s@) ==> payload_extract(p) == payload_extract(
            (BrowserPayload { page_text: None, ..p }),
        ),
        p.selection is None && p.page_markdown is None && p.page_text is None && p.image_url is None
            ==> payload_extract(p).text.len() == 0,
        p.page_markdown is None && p.page_text is None && p.image_url is None ==> (
        p.selection matches Some(s) ==> !text::blank(s@) ==> payload_extract(p).text
            == "## Selection\n\n"@ + s@),
        p.selection is None && p.page_markdown is None && p.image_url is None ==> (
        p.page_text matches Some(s) ==> !text::blank(s@) ==> payload_extract(p).text
            == "## Page text\n\n"@ + s@),
        p.selection is None && p.image_url is None ==> (p.page_markdown matches Some(s)
            ==> !text::blank(s@) ==> payload_extract(p).text == "## Page (Markdown)\n\n"@ + s@),
        p.selection is None && p.page_markdown is None && p.page_text is None ==> (
        p.image_url matches Some(s) ==> payload_extract(p).text == "## Image URL\n\n"@ + s@),
{
    if let Some(s) = p.selection {
        text::trimming_takes_white_space_only(s@);
    }
    if let Some(s) = p.page_markdown {
        text::trimming_takes_white_space_only(s@);
    }
    if let Some(s) = p.page_text {
        text::trimming_takes_white_space_only(s@);
    }
    let parts = selection_part(p) + page_part(p) + image_part(p);
    if parts.len() == 1 {
        assert(split::joined(parts, "\n\n"@) == parts[0]);
    }
}

/// Each kind of content is read in its own way.
pub proof fn kinds_are_read_in_their_way(kind: ContentKind)
    ensures
        route_of(kind) == Route::Pdf <==> kind == ContentKind::Pdf,
        route_of(kind) == Route::Image <==> kind == ContentKind::Image,
        route_of(kind) == Route::Media <==> kind == ContentKind::Audio || kind == ContentKind::Video,
        route_of(kind) == Route::Html <==> kind == ContentKind::Html,
        route_of(kind) == Route::Plain <==> kind == ContentKind::Text || kind
            == ContentKind::Markdown,
        route_of(kind) == Route::Clip <==> kind == ContentKind::UrlClip || kind
            == ContentKind::Unknown,
{
}

/// A file is refused exactly where it is missing or no file, and the refusal names it.
pub proof fn only_files_are_read(path: Seq<char>, exists_: bool, is_file: bool)
    ensures
        unreadable(path, exists_, is_file) is None <==> exists_ && is_file,
        unreadable(path, exists_, is_file) matches Some(e) ==> text::ends(e, path),
{
    if let Some(e) = unreadable(path, exists_, is_file) {
        assert(e.skip(e.len() - path.len()) == path);
    }
}

} // verus!
