//! The texts that are written into the vault for one item.

use vstd::prelude::*;
use vstd::string::*;

use crate::clock;
use crate::clock::Timestamp;
use crate::extract;
use crate::extract::{glue, truncate_chars, Extracted, ExtractedView};
use crate::grok::{AiIngestResult, AiView};
use crate::ids;
use crate::job;
use crate::job::{IngestJob, JobView};
use crate::search;
use crate::split;
use crate::text;
use crate::vault;

verus! {

/// `s` for use between double quotes in YAML.
pub open spec fn yaml_text(s: Seq<char>) -> Seq<char> {
    search::replaced(search::replaced(s, "\\"@, "\\\\"@), "\""@, "\\\""@)
}

/// `s` for use between double quotes in YAML.
pub fn escape_yaml(s: &str) -> (r: String)
    ensures
        r@ == yaml_text(s@),
{
    proof {
        reveal_strlit("\\");
        reveal_strlit("\"");
    }
    let t = search::replace(s, "\\", "\\\\");
    search::replace(t.as_str(), "\"", "\\\"")
}

/// `key: "value"` as one line, if there is a value.
pub open spec fn yaml_line(key: Seq<char>, value: Option<Seq<char>>) -> Seq<char> {
    match value {
        Some(v) => key + ": \""@ + yaml_text(v) + "\"\n"@,
        None => Seq::empty(),
    }
}

fn put_yaml(md: &mut String, key: &str, value: &Option<String>)
    ensures
        final(md)@ == old(md)@ + yaml_line(key@, text::opt_view(*value)),
{
    let ghost before = md@;
    match value {
        Some(v) => {
            let mut line = glue(key, ": \"");
            line.append(escape_yaml(v.as_str()).as_str());
            line.append("\"\n");
            md.append(line.as_str());
        },
        None => {
            assert(before + Seq::<char>::empty() == before);
        },
    }
}

/// The line that names the job.
pub open spec fn job_line(id: u128) -> Seq<char> {
    "job_id: \""@ + ids::uuid_text(id) + "\"\n"@
}

fn job_line_text(id: u128) -> (r: String)
    ensures
        r@ == job_line(id),
{
    let mut s = glue("job_id: \"", ids::id_text(id).as_str());
    s.append("\"\n");
    s
}

/// What is kept of an extract.
pub open spec fn extract_file_text(id: u128, ex: ExtractedView) -> Seq<char> {
    "---\n"@ + job_line(id) + yaml_line("title"@, ex.title) + yaml_line(
        "source_url"@,
        ex.source_url,
    ) + ("kind: \""@ + job::kind_text(ex.kind) + "\"\n---\n\n"@) + ex.text + "\n"@
}

/// What is kept of an extract.
pub fn write_extract_file(id: u128, ex: &Extracted) -> (r: String)
    ensures
        r@ == extract_file_text(id, ex@),
{
    let mut md = glue("---\n", job_line_text(id).as_str());
    put_yaml(&mut md, "title", &ex.title);
    put_yaml(&mut md, "source_url", &ex.source_url);
    let mut k = glue("kind: \"", ex.kind.name());
    k.append("\"\n---\n\n");
    md.append(k.as_str());
    md.append(ex.text.as_str());
    md.append("\n");
    md
}

/// The first line, trimmed, of more than twenty bytes.
pub open spec fn substantial_line(lines: Seq<Seq<char>>) -> Option<Seq<char>>
    decreases lines.len(),
{
    if lines.len() == 0 {
        None
    } else if extract::byte_len(text::trimmed(lines[0])) > 20 {
        Some(text::trimmed(lines[0]))
    } else {
        substantial_line(lines.drop_first())
    }
}

/// A summary without anybody's help: the first line of some length.
pub open spec fn summary_text(body: Seq<char>) -> Seq<char> {
    text::clipped(
        match substantial_line(split::lines_of(body)) {
            Some(l) => l,
            None => "Extracted source material."@,
        },
        240,
    )
}

/// A summary without anybody's help: the first line of some length.
pub fn summary_heuristic(body: &str) -> (r: String)
    ensures
        r@ == summary_text(body@),
{
    let lines = split::lines(body);
    let ghost all = text::views(lines@);
    let mut i: usize = 0;
    assert(all.skip(0) == all);
    while i < lines.len()
        invariant
            i <= lines@.len(),
            all == text::views(lines@),
            all == split::lines_of(body@),
            substantial_line(all) == substantial_line(all.skip(i as int)),
        decreases lines@.len() - i,
    {
        let ghost rest = all.skip(i as int);
        assert(rest[0] == lines@[i as int]@);
        assert(rest.drop_first() == all.skip(i + 1));
        let l = text::trim(lines[i].as_str());
        if l.as_bytes().len() > 20 {
            return text::clip(l, 240);
        }
        i = i + 1;
    }
    text::clip("Extracted source material.", 240)
}

/// Tags in quotes.
pub open spec fn quoted_tags(tags: Seq<Seq<char>>) -> Seq<Seq<char>> {
    tags.map_values(|t: Seq<char>| "\""@ + t + "\""@)
}

/// The line of tags, if there are any.
pub open spec fn tags_line(tags: Seq<Seq<char>>) -> Seq<char> {
    if tags.len() > 0 {
        "tags: ["@ + split::joined(quoted_tags(tags), ", "@) + "]\n"@
    } else {
        Seq::empty()
    }
}

fn tags_line_text(tags: &Vec<String>) -> (r: String)
    ensures
        r@ == tags_line(text::views(tags@)),
{
    if tags.len() == 0 {
        return String::new();
    }
    let mut quoted: Vec<String> = Vec::new();
    let ghost all = quoted_tags(text::views(tags@));
    let mut i: usize = 0;
    while i < tags.len()
        invariant
            i <= tags@.len(),
            all == quoted_tags(text::views(tags@)),
            text::views(quoted@) == all.take(i as int),
        decreases tags@.len() - i,
    {
        let mut q = glue("\"", tags[i].as_str());
        q.append("\"");
        assert(all[i as int] == q@);
        text::push_text(&mut quoted, q);
        assert(all.take(i + 1) == all.take(i as int).push(all[i as int]));
        i = i + 1;
    }
    assert(all.take(i as int) == all);
    let mut s = glue("tags: [", split::join(&quoted, ", ").as_str());
    s.append("]\n");
    s
}

/// One line for each entity.
pub open spec fn entity_lines(entities: Seq<Seq<char>>) -> Seq<char>
    decreases entities.len(),
{
    if entities.len() == 0 {
        Seq::empty()
    } else {
        entity_lines(entities.drop_last()) + ("- "@ + entities.last() + "\n"@)
    }
}

/// The section on entities, if there are any.
pub open spec fn entities_section(entities: Seq<Seq<char>>) -> Seq<char> {
    if entities.len() > 0 {
        "## Entities\n\n"@ + entity_lines(entities) + "\n"@
    } else {
        Seq::empty()
    }
}

fn entities_section_text(entities: &Vec<String>) -> (r: String)
    ensures
        r@ == entities_section(text::views(entities@)),
{
    if entities.len() == 0 {
        return String::new();
    }
    let ghost all = text::views(entities@);
    let mut lines = String::new();
    let mut i: usize = 0;
    assert(lines@ == entity_lines(all.take(0)));
    while i < entities.len()
        invariant
            i <= entities@.len(),
            all == text::views(entities@),
            lines@ == entity_lines(all.take(i as int)),
        decreases entities@.len() - i,
    {
        let mut l = glue("- ", entities[i].as_str());
        l.append("\n");
        proof {
            assert(all.take(i + 1).drop_last() == all.take(i as int));
            assert(all.take(i + 1).last() == entities@[i as int]@);
        }
        lines.append(l.as_str());
        i = i + 1;
    }
    assert(all.take(i as int) == all);
    let mut s = glue("## Entities\n\n", lines.as_str());
    s.append("\n");
    s
}

/// The line with the address of the source, if there is one.
pub open spec fn url_line(url: Option<Seq<char>>) -> Seq<char> {
    match url {
        Some(u) => "- URL: "@ + u + "\n"@,
        None => Seq::empty(),
    }
}

fn url_line_text(url: &Option<String>) -> (r: String)
    ensures
        r@ == url_line(text::opt_view(*url)),
{
    match url {
        Some(u) => {
            let mut s = glue("- URL: ", u.as_str());
            s.append("\n");
            s
        },
        None => String::new(),
    }
}

/// A newline, unless the text ends with one.
pub open spec fn line_close(s: Seq<char>) -> Seq<char> {
    if text::ends(s, "\n"@) {
        Seq::empty()
    } else {
        "\n"@
    }
}

/// The note that is made of what Grok returned.
pub open spec fn ai_note_text(j: JobView, ex: ExtractedView, ai: AiView, date: Seq<char>) -> Seq<char> {
    "---\n"@ + yaml_line("title"@, Some(ai.note_title)) + job_line(j.id) + yaml_line(
        "source"@,
        ex.source_url,
    ) + tags_line(ai.tags) + ("created: "@ + date + "\n---\n\n# "@ + ai.note_title + "\n\n> "@
        + ai.summary + "\n\n"@) + entities_section(ai.entities) + ai.markdown + line_close(ai.markdown)
        + ("\n## Source\n\n- File: `"@ + j.source_path + "`\n"@) + url_line(ex.source_url) + (
    "- Job: `"@ + ids::uuid_text(j.id) + "`\n"@)
}

/// The note that is made of what Grok returned, on a given day.
pub fn build_note_from_ai_at(job: &IngestJob, ex: &Extracted, ai: &AiIngestResult, now: Timestamp) -> (r:
    String)
    requires
        now.dated(),
    ensures
        r@ == ai_note_text(job@, ex@, ai@, now.date_text()),
{
    let mut md = "---\n".to_owned();
    let title = Some(ai.note_title.clone());
    put_yaml(&mut md, "title", &title);
    md.append(job_line_text(job.id).as_str());
    put_yaml(&mut md, "source", &ex.source_url);
    md.append(tags_line_text(&ai.tags).as_str());
    let mut head = glue("created: ", now.date().as_str());
    head.append("\n---\n\n# ");
    head.append(ai.note_title.as_str());
    head.append("\n\n> ");
    head.append(ai.summary.as_str());
    head.append("\n\n");
    md.append(head.as_str());
    md.append(entities_section_text(&ai.entities).as_str());
    md.append(ai.markdown.as_str());
    if text::ends_with(ai.markdown.as_str(), "\n") {
        assert(md@ + Seq::<char>::empty() == md@);
    } else {
        md.append("\n");
    }
    let mut source = glue("\n## Source\n\n- File: `", job.source_path.as_str());
    source.append("`\n");
    md.append(source.as_str());
    md.append(url_line_text(&ex.source_url).as_str());
    let mut end = glue("- Job: `", ids::id_text(job.id).as_str());
    end.append("`\n");
    md.append(end.as_str());
    md
}

/// The note that is made of what Grok returned.
pub fn build_note_from_ai(job: &IngestJob, ex: &Extracted, ai: &AiIngestResult) -> (r: String)
    ensures
        exists|now: Timestamp|
            now.dated() && r@ == ai_note_text(job@, ex@, ai@, #[trigger] now.date_text()),
{
    build_note_from_ai_at(job, ex, ai, clock::utc_now())
}

/// The title of an item, or a stand-in.
pub open spec fn title_or_note(title: Option<Seq<char>>) -> Seq<char> {
    match title {
        Some(t) => t,
        None => "Research note"@,
    }
}

/// The note that is made without Grok.
pub open spec fn heuristic_note_text(
    j: JobView,
    ex: ExtractedView,
    summary: Seq<char>,
    date: Seq<char>,
) -> Seq<char> {
    let title = title_or_note(ex.title);
    "---\n"@ + yaml_line("title"@, Some(title)) + job_line(j.id) + (
    "tags: [\"ingest\", \"heuristic\"]\ncreated: "@ + date + "\n---\n\n# "@ + title + "\n\n> "@
        + summary + "\n\n## Extract\n\n"@) + extract::truncated(ex.text, 12_000) + (
    "\n\n## Source\n\n- File: `"@ + j.source_path + "`\n"@) + url_line(ex.source_url)
        + "\n> Note: Grok session was not used for this note (queue-only, or session error). Re-run with `research-ingest drain` after `grok login` if needed.\n"@
}

/// The note that is made without Grok, on a given day.
pub fn build_heuristic_note_at(job: &IngestJob, ex: &Extracted, summary: &str, now: Timestamp) -> (r:
    String)
    requires
        now.dated(),
    ensures
        r@ == heuristic_note_text(job@, ex@, summary@, now.date_text()),
{
    let title = text::text_or(&ex.title, "Research note");
    let mut md = "---\n".to_owned();
    let some = Some(title.to_owned());
    put_yaml(&mut md, "title", &some);
    md.append(job_line_text(job.id).as_str());
    let mut head = glue("tags: [\"ingest\", \"heuristic\"]\ncreated: ", now.date().as_str());
    head.append("\n---\n\n# ");
    head.append(title);
    head.append("\n\n> ");
    head.append(summary);
    head.append("\n\n## Extract\n\n");
    md.append(head.as_str());
    md.append(truncate_chars(ex.text.as_str(), 12_000).as_str());
    let mut source = glue("\n\n## Source\n\n- File: `", job.source_path.as_str());
    source.append("`\n");
    md.append(source.as_str());
    md.append(url_line_text(&ex.source_url).as_str());
    md.append(
        "\n> Note: Grok session was not used for this note (queue-only, or session error). Re-run with `research-ingest drain` after `grok login` if needed.\n",
    );
    md
}

/// The note that is made without Grok.
pub fn build_heuristic_note(job: &IngestJob, ex: &Extracted, summary: &str) -> (r: String)
    ensures
        exists|now: Timestamp|
            now.dated() && r@ == heuristic_note_text(
                job@,
                ex@,
                summary@,
                #[trigger] now.date_text(),
            ),
{
    build_heuristic_note_at(job, ex, summary, clock::utc_now())
}

/// `s` without any `.md` at its end.
pub open spec fn without_md(s: Seq<char>) -> Seq<char>
    decreases s.len(),
{
    if s.len() >= 3 && s.skip(s.len() - 3) == ".md"@ {
        without_md(s.take(s.len() - 3))
    } else {
        s
    }
}

fn trim_md(s: &str) -> (r: &str)
    ensures
        r@ == without_md(s@),
{
    let mut t: &str = s;
    proof {
        reveal_strlit(".md");
    }
    while text::ends_with(t, ".md")
        invariant
            ".md"@.len() == 3,
            without_md(t@) == without_md(s@),
        decreases t@.len(),
    {
        let n: usize = t.unicode_len();
        assert(t@.subrange(0, n - 3) == t@.take(n - 3));
        t = t.substring_char(0, n - 3);
    }
    t
}

/// The line that lists a note among the sources of its project.
pub open spec fn source_line(note_file: Seq<char>, title: Seq<char>, summary: Seq<char>) -> Seq<char> {
    "- [["@ + without_md(note_file) + "|"@ + title + "]] — "@ + text::clipped(summary, 120) + "\n"@
}

/// What becomes of the note of a project when a source is listed: nothing where it is
/// listed already.
pub open spec fn with_source(body: Seq<char>, line: Seq<char>) -> Option<Seq<char>> {
    if search::occurs(body, line) {
        None
    } else {
        Some(
            match search::found(body, "## Sources"@) {
                Some(i) => search::inserted(body, vault::below_heading(body, i), line),
                None => body + ("\n## Sources\n\n"@ + line),
            },
        )
    }
}

/// The text to write so that a note is listed among the sources of its project, if one
/// has to be written. A project without a note has an empty one.
pub fn append_source_link(body: &str, note_file: &str, title: &str, summary: &str) -> (r: Option<
    String,
>)
    ensures
        text::opt_view(r) == with_source(body@, source_line(note_file@, title@, summary@)),
{
    let mut line = glue("- [[", trim_md(note_file));
    line.append("|");
    line.append(title);
    line.append("]] — ");
    line.append(text::clip(summary, 120).as_str());
    line.append("\n");
    if search::contains(body, line.as_str()) {
        return None;
    }
    match search::find(body, "## Sources") {
        Some(idx) => {
            let at = vault::line_below(body, idx);
            Some(search::insert_at(body, at, line.as_str()))
        },
        None => {
            let add = glue("\n## Sources\n\n", line.as_str());
            Some(glue(body, add.as_str()))
        },
    }
}

/// Listing a source twice is listing it once.
pub proof fn sources_are_listed_once(body: Seq<char>, line: Seq<char>)
    ensures
        match with_source(body, line) {
            Some(b) => search::occurs(b, line) && with_source(b, line) is None,
            None => search::occurs(body, line),
        },
{
    search::lemma_found(body, "## Sources"@);
    match search::found(body, "## Sources"@) {
        Some(i) => {
            let at = vault::below_heading(body, i);
            vault::lemma_below_heading(body, i);
            search::lemma_has_middle(body.take(at), line, body.skip(at));
        },
        None => {
            let b = body + ("\n## Sources\n\n"@ + line);
            assert(b == (body + "\n## Sources\n\n"@) + line + Seq::<char>::empty());
            search::lemma_has_middle(body + "\n## Sources\n\n"@, line, Seq::empty());
        },
    }
}

/// What a YAML reader makes of the inside of double quotes in which only quotes and
/// backslashes are escaped; nothing where a quote stands bare or an escape is broken.
pub open spec fn yaml_read(s: Seq<char>) -> Option<Seq<char>>
    decreases s.len(),
{
    if s.len() == 0 {
        Some(Seq::empty())
    } else if s[0] == '"' {
        None
    } else if s[0] == '\\' {
        if s.len() > 1 && (s[1] == '\\' || s[1] == '"') {
            match yaml_read(s.skip(2)) {
                Some(t) => Some(seq![s[1]] + t),
                None => None,
            }
        } else {
            None
        }
    } else {
        match yaml_read(s.drop_first()) {
            Some(t) => Some(seq![s[0]] + t),
            None => None,
        }
    }
}

/// How one character is escaped.
pub open spec fn yaml_char(c: char) -> Seq<char> {
    if c == '\\' {
        seq!['\\', '\\']
    } else if c == '"' {
        seq!['\\', '"']
    } else {
        seq![c]
    }
}

proof fn lemma_yaml_spelled(s: Seq<char>)
    ensures
        yaml_text(s) == search::spelled(s, |c: char| yaml_char(c)),
{
    reveal_strlit("\\");
    reveal_strlit("\"");
    reveal_strlit("\\\\");
    reveal_strlit("\\\"");
    let a = search::swap_char('\\', "\\\\"@);
    let b = search::swap_char('"', "\\\""@);
    assert("\\\\"@ == seq!['\\', '\\']);
    assert("\\\""@ == seq!['\\', '"']);
    assert("\\"@ == seq!['\\']);
    assert("\""@ == seq!['"']);
    search::lemma_replaced_char(s, '\\', "\\\\"@);
    let t = search::spelled(s, a);
    search::lemma_replaced_char(t, '"', "\\\""@);
    lemma_two_passes(s, a, b);
}

/// Escaping in two passes is escaping each character.
proof fn lemma_two_passes(
    s: Seq<char>,
    a: spec_fn(char) -> Seq<char>,
    b: spec_fn(char) -> Seq<char>,
)
    requires
        forall|c: char| #[trigger] a(c) == if c == '\\' {
            seq!['\\', '\\']
        } else {
            seq![c]
        },
        forall|c: char| #[trigger] b(c) == if c == '"' {
            seq!['\\', '"']
        } else {
            seq![c]
        },
    ensures
        search::spelled(search::spelled(s, a), b) == search::spelled(s, |c: char| yaml_char(c)),
    decreases s.len(),
{
    let f = |c: char| yaml_char(c);
    if s.len() > 0 {
        let d = s.drop_last();
        let c = s.last();
        lemma_two_passes(d, a, b);
        search::lemma_spelled_add(search::spelled(d, a), a(c), b);
        if c == '\\' {
            search::lemma_spelled_push(seq!['\\'], '\\', b);
            search::lemma_spelled_push(Seq::empty(), '\\', b);
            assert(seq!['\\'].push('\\') == seq!['\\', '\\']);
            assert(Seq::<char>::empty().push('\\') == seq!['\\']);
            assert(search::spelled(Seq::<char>::empty(), b) == Seq::<char>::empty());
            assert(b('\\') == seq!['\\']);
            assert(Seq::<char>::empty() + seq!['\\'] == seq!['\\']);
            assert(seq!['\\'] + seq!['\\'] == seq!['\\', '\\']);
        } else {
            search::lemma_spelled_push(Seq::empty(), c, b);
            assert(Seq::<char>::empty().push(c) == seq![c]);
            assert(Seq::<char>::empty() + b(c) == b(c));
        }
        assert(search::spelled(a(c), b) == f(c));
    }
}

proof fn lemma_yaml_read(s: Seq<char>, rest: Seq<char>)
    ensures
        yaml_read(search::spelled(s, |c: char| yaml_char(c)) + rest) == match yaml_read(rest) {
            Some(t) => Some(s + t),
            None => None,
        },
    decreases s.len(),
{
    let f = |c: char| yaml_char(c);
    if s.len() == 0 {
        assert(search::spelled(s, f) + rest == rest);
        if let Some(t) = yaml_read(rest) {
            assert(s + t == t);
        }
    } else {
        let d = s.drop_last();
        let c = s.last();
        let e = f(c) + rest;
        lemma_yaml_read(d, e);
        assert(search::spelled(s, f) + rest == search::spelled(d, f) + e);
        if c == '\\' || c == '"' {
            assert(e.skip(2) == rest);
        } else {
            assert(e.drop_first() == rest);
        }
        if let Some(t) = yaml_read(rest) {
            assert(d + (seq![c] + t) == s + t);
        }
    }
}

/// What is escaped for YAML is read back as it was.
pub proof fn yaml_is_read_back(s: Seq<char>)
    ensures
        yaml_read(yaml_text(s)) == Some(s),
{
    lemma_yaml_spelled(s);
    let f = |c: char| yaml_char(c);
    lemma_yaml_read(s, Seq::empty());
    assert(search::spelled(s, f) + Seq::<char>::empty() == search::spelled(s, f));
    assert(s + Seq::<char>::empty() == s);
}

/// A note that is made of what Grok returned holds all of it: its text whole, its title, its
/// summary, every entity and every tag. It tells where the source lies, where it came from,
/// on which day it was made and for which job.
pub proof fn grok_is_quoted(j: JobView, ex: ExtractedView, ai: AiView, date: Seq<char>)
    ensures
        ({
            let n = ai_note_text(j, ex, ai, date);
            &&& search::occurs(n, ai.markdown)
            &&& search::occurs(n, "\n\n# "@ + ai.note_title + "\n"@)
            &&& search::occurs(n, "\n\n> "@ + ai.summary + "\n"@)
            &&& forall|i: int|
                0 <= i < ai.entities.len() ==> search::occurs(
                    n,
                    "- "@ + #[trigger] ai.entities[i] + "\n"@,
                )
            &&& forall|i: int|
                0 <= i < ai.tags.len() ==> search::occurs(n, "\""@ + #[trigger] ai.tags[i] + "\""@)
            &&& search::occurs(n, "`"@ + j.source_path + "`"@)
            &&& ex.source_url matches Some(u) ==> search::occurs(n, u)
            &&& search::occurs(n, "created: "@ + date + "\n"@)
            &&& search::occurs(n, ids::uuid_text(j.id))
            &&& text::begins(n, "---\ntitle: \""@ + yaml_text(ai.note_title) + "\"\n"@)
            &&& ex.source_url matches Some(u) ==> search::occurs(
                n,
                "source: \""@ + yaml_text(u) + "\"\n"@,
            )
        }),
{
    lemma_front_matter(j.id, ai.note_title, ex.source_url);
    let made = "created: "@ + date + "\n---\n\n# "@ + ai.note_title + "\n\n> "@ + ai.summary
        + "\n\n"@;
    let file = "\n## Source\n\n- File: `"@ + j.source_path + "`\n"@;
    let end = "- Job: `"@ + ids::uuid_text(j.id) + "`\n"@;
    let s1 = "---\n"@ + yaml_line("title"@, Some(ai.note_title)) + job_line(j.id) + yaml_line(
        "source"@,
        ex.source_url,
    );
    let s2 = s1 + tags_line(ai.tags);
    let s3 = s2 + made;
    let s4 = s3 + entities_section(ai.entities);
    let s5 = s4 + ai.markdown;
    let s6 = s5 + line_close(ai.markdown);
    let s7 = s6 + file;
    let s8 = s7 + url_line(ex.source_url);
    text::lemma_begins_add(s1, tags_line(ai.tags));
    text::lemma_begins_add(s2, made);
    text::lemma_begins_add(s3, entities_section(ai.entities));
    text::lemma_begins_add(s4, ai.markdown);
    text::lemma_begins_add(s5, line_close(ai.markdown));
    text::lemma_begins_add(s6, file);
    text::lemma_begins_add(s7, url_line(ex.source_url));
    text::lemma_begins_add(s8, end);
    search::lemma_occurs_itself(ai.markdown);
    search::lemma_occurs_add(s1, tags_line(ai.tags));
    search::lemma_occurs_add(s2, made);
    search::lemma_occurs_add(s3, entities_section(ai.entities));
    search::lemma_occurs_add(s4, ai.markdown);
    search::lemma_occurs_add(s5, line_close(ai.markdown));
    search::lemma_occurs_add(s6, file);
    search::lemma_occurs_add(s7, url_line(ex.source_url));
    search::lemma_occurs_add(s8, end);
    lemma_head_quoted(date, ai.note_title, ai.summary);
    lemma_file_quoted(j.source_path);
    search::lemma_has_middle("- Job: `"@, ids::uuid_text(j.id), "`\n"@);
    if let Some(u) = ex.source_url {
        search::lemma_has_middle("- URL: "@, u, "\n"@);
    }
    assert forall|i: int| 0 <= i < ai.entities.len() implies search::occurs(
        s8 + end,
        "- "@ + #[trigger] ai.entities[i] + "\n"@,
    ) by {
        let l = "- "@ + ai.entities[i] + "\n"@;
        lemma_entity_line(ai.entities, i);
        search::lemma_occurs_within("## Entities\n\n"@, entity_lines(ai.entities), "\n"@, l);
    }
    assert forall|i: int| 0 <= i < ai.tags.len() implies search::occurs(
        s8 + end,
        "\""@ + #[trigger] ai.tags[i] + "\""@,
    ) by {
        let q = quoted_tags(ai.tags);
        assert(q[i] == "\""@ + ai.tags[i] + "\""@);
        search::lemma_joined_has(q, ", "@, i);
        search::lemma_occurs_within("tags: ["@, split::joined(q, ", "@), "]\n"@, q[i]);
    }
}

/// How a note starts.
proof fn lemma_front_matter(id: u128, title: Seq<char>, url: Option<Seq<char>>)
    ensures
        ({
            let s = "---\n"@ + yaml_line("title"@, Some(title)) + job_line(id) + yaml_line(
                "source"@,
                url,
            );
            &&& text::begins(s, "---\ntitle: \""@ + yaml_text(title) + "\"\n"@)
            &&& url matches Some(u) ==> search::occurs(s, "source: \""@ + yaml_text(u) + "\"\n"@)
        }),
{
    let first = "---\n"@ + yaml_line("title"@, Some(title));
    let top = first + job_line(id);
    let src = yaml_line("source"@, url);
    reveal_strlit("---\n");
    reveal_strlit("title");
    reveal_strlit(": \"");
    reveal_strlit("---\ntitle: \"");
    reveal_strlit("source");
    reveal_strlit("source: \"");
    assert("---\ntitle: \""@ == "---\n"@ + ("title"@ + ": \""@));
    assert("source: \""@ == "source"@ + ": \""@);
    let head = "---\ntitle: \""@ + yaml_text(title) + "\"\n"@;
    assert(first == head);
    assert(head.take(head.len() as int) == head);
    text::lemma_begins_add(first, job_line(id));
    text::lemma_begins_add(top, src);
    search::lemma_occurs_itself(src);
    search::lemma_occurs_add(top, src);
}

/// What the head of a note says.
proof fn lemma_head_quoted(date: Seq<char>, title: Seq<char>, summary: Seq<char>)
    ensures
        ({
            let made = "created: "@ + date + "\n---\n\n# "@ + title + "\n\n> "@ + summary + "\n\n"@;
            &&& search::occurs(made, "\n\n# "@ + title + "\n"@)
            &&& search::occurs(made, "\n\n> "@ + summary + "\n"@)
            &&& search::occurs(made, "created: "@ + date + "\n"@)
        }),
{
    reveal_strlit("\n---\n\n# ");
    reveal_strlit("\n---");
    reveal_strlit("---\n\n# ");
    reveal_strlit("\n\n# ");
    reveal_strlit("\n\n> ");
    reveal_strlit("\n> ");
    reveal_strlit("\n\n");
    reveal_strlit("\n");
    let made = "created: "@ + date + "\n---\n\n# "@ + title + "\n\n> "@ + summary + "\n\n"@;
    let none = Seq::<char>::empty();
    assert("\n---\n\n# "@ == "\n---"@ + "\n\n# "@);
    assert("\n---\n\n# "@ == "\n"@ + "---\n\n# "@);
    assert("\n\n> "@ == "\n"@ + "\n> "@);
    assert("\n\n"@ == "\n"@ + "\n"@);
    let t = "\n\n# "@ + title + "\n"@;
    assert(made == ("created: "@ + date + "\n---"@) + t + ("\n> "@ + summary + "\n\n"@));
    search::lemma_has_middle("created: "@ + date + "\n---"@, t, "\n> "@ + summary + "\n\n"@);
    let u = "\n\n> "@ + summary + "\n"@;
    assert(made == ("created: "@ + date + "\n---\n\n# "@ + title) + u + "\n"@);
    search::lemma_has_middle("created: "@ + date + "\n---\n\n# "@ + title, u, "\n"@);
    let d = "created: "@ + date + "\n"@;
    let rest = "---\n\n# "@ + title + "\n\n> "@ + summary + "\n\n"@;
    assert(made == none + d + rest);
    search::lemma_has_middle(none, d, rest);
}

/// What a note says of the file that it was made of.
proof fn lemma_file_quoted(path: Seq<char>)
    ensures
        search::occurs("\n## Source\n\n- File: `"@ + path + "`\n"@, "`"@ + path + "`"@),
{
    reveal_strlit("\n## Source\n\n- File: `");
    reveal_strlit("\n## Source\n\n- File: ");
    reveal_strlit("`\n");
    reveal_strlit("`");
    reveal_strlit("\n");
    let p = "`"@ + path + "`"@;
    assert("\n## Source\n\n- File: `"@ + path + "`\n"@ == "\n## Source\n\n- File: "@ + p + "\n"@);
    search::lemma_has_middle("\n## Source\n\n- File: "@, p, "\n"@);
}

/// Every entity has its line.
proof fn lemma_entity_line(entities: Seq<Seq<char>>, i: int)
    requires
        0 <= i < entities.len(),
    ensures
        search::occurs(entity_lines(entities), "- "@ + entities[i] + "\n"@),
    decreases entities.len(),
{
    let d = entities.drop_last();
    let last = "- "@ + entities.last() + "\n"@;
    let none = Seq::<char>::empty();
    if i < d.len() {
        lemma_entity_line(d, i);
        search::lemma_occurs_within(none, entity_lines(d), last, "- "@ + entities[i] + "\n"@);
        assert(none + entity_lines(d) + last == entity_lines(entities));
    } else {
        search::lemma_has_middle(entity_lines(d), last, none);
        assert(entity_lines(d) + last + none == entity_lines(entities));
    }
}

/// A note that is made without Grok holds the text that was extracted: whole where it has
/// at most twelve thousand characters, and else its beginning. It has the title of the
/// item and the summary, and tells where the source lies, where it came from, on which day
/// the note was made and for which job.
pub proof fn the_extract_is_quoted(j: JobView, ex: ExtractedView, summary: Seq<char>, date: Seq<char>)
    ensures
        ({
            let n = heuristic_note_text(j, ex, summary, date);
            let title = match ex.title {
                Some(t) => t,
                None => "Research note"@,
            };
            &&& ex.text.len() <= 12_000 ==> search::occurs(n, ex.text)
            &&& ex.text.len() > 12_000 ==> search::occurs(n, ex.text.take(12_000))
            &&& search::occurs(n, "\n\n# "@ + title + "\n\n> "@ + summary + "\n\n"@)
            &&& search::occurs(n, "created: "@ + date + "\n"@)
            &&& search::occurs(n, "`"@ + j.source_path + "`"@)
            &&& ex.source_url matches Some(u) ==> search::occurs(n, u)
            &&& search::occurs(n, ids::uuid_text(j.id))
        }),
{
    let title = title_or_note(ex.title);
    let head = "tags: [\"ingest\", \"heuristic\"]\ncreated: "@ + date + "\n---\n\n# "@ + title
        + "\n\n> "@ + summary + "\n\n## Extract\n\n"@;
    let file = "\n\n## Source\n\n- File: `"@ + j.source_path + "`\n"@;
    let t = extract::truncated(ex.text, 12_000);
    let end = "\n> Note: Grok session was not used for this note (queue-only, or session error). Re-run with `research-ingest drain` after `grok login` if needed.\n"@;
    let s0 = "---\n"@ + yaml_line("title"@, Some(title));
    let s1 = s0 + job_line(j.id);
    let s2 = s1 + head;
    let s3 = s2 + t;
    let s4 = s3 + file;
    let s5 = s4 + url_line(ex.source_url);
    search::lemma_occurs_add(s0, job_line(j.id));
    search::lemma_occurs_add(s1, head);
    search::lemma_occurs_add(s2, t);
    search::lemma_occurs_add(s3, file);
    search::lemma_occurs_add(s4, url_line(ex.source_url));
    search::lemma_occurs_add(s5, end);
    search::lemma_has_middle("job_id: \""@, ids::uuid_text(j.id), "\"\n"@);
    lemma_heuristic_head(date, title, summary);
    reveal_strlit("\n\n## Source\n\n- File: `");
    reveal_strlit("\n## Source\n\n- File: `");
    reveal_strlit("\n");
    assert("\n\n## Source\n\n- File: `"@ == "\n"@ + "\n## Source\n\n- File: `"@);
    lemma_file_quoted(j.source_path);
    let plain = "\n## Source\n\n- File: `"@ + j.source_path + "`\n"@;
    search::lemma_occurs_add("\n"@, plain);
    assert(file == "\n"@ + plain);
    if let Some(u) = ex.source_url {
        search::lemma_has_middle("- URL: "@, u, "\n"@);
    }
    let none = Seq::<char>::empty();
    if ex.text.len() <= 12_000 {
        search::lemma_occurs_itself(t);
    } else {
        search::lemma_has_middle(none, ex.text.take(12_000), "\n\n…[truncated for length]\n"@);
        assert(t == none + ex.text.take(12_000) + "\n\n…[truncated for length]\n"@);
    }
}

/// What the head of a note says that is made without Grok.
proof fn lemma_heuristic_head(date: Seq<char>, title: Seq<char>, summary: Seq<char>)
    ensures
        ({
            let head = "tags: [\"ingest\", \"heuristic\"]\ncreated: "@ + date + "\n---\n\n# "@
                + title + "\n\n> "@ + summary + "\n\n## Extract\n\n"@;
            &&& search::occurs(head, "\n\n# "@ + title + "\n\n> "@ + summary + "\n\n"@)
            &&& search::occurs(head, "created: "@ + date + "\n"@)
        }),
{
    reveal_strlit("tags: [\"ingest\", \"heuristic\"]\ncreated: ");
    reveal_strlit("tags: [\"ingest\", \"heuristic\"]\n");
    reveal_strlit("created: ");
    reveal_strlit("\n---\n\n# ");
    reveal_strlit("\n---");
    reveal_strlit("---\n\n# ");
    reveal_strlit("\n\n# ");
    reveal_strlit("\n\n");
    reveal_strlit("\n");
    reveal_strlit("## Extract\n\n");
    reveal_strlit("\n\n## Extract\n\n");
    let tags = "tags: [\"ingest\", \"heuristic\"]\n"@;
    assert("tags: [\"ingest\", \"heuristic\"]\ncreated: "@ == tags + "created: "@);
    assert("\n---\n\n# "@ == "\n---"@ + "\n\n# "@);
    assert("\n---\n\n# "@ == "\n"@ + "---\n\n# "@);
    assert("\n\n## Extract\n\n"@ == "\n\n"@ + "## Extract\n\n"@);
    let head = "tags: [\"ingest\", \"heuristic\"]\ncreated: "@ + date + "\n---\n\n# "@ + title
        + "\n\n> "@ + summary + "\n\n## Extract\n\n"@;
    let t = "\n\n# "@ + title + "\n\n> "@ + summary + "\n\n"@;
    search::lemma_has_middle(tags + "created: "@ + date + "\n---"@, t, "## Extract\n\n"@);
    assert(head == (tags + "created: "@ + date + "\n---"@) + t + "## Extract\n\n"@);
    let d = "created: "@ + date + "\n"@;
    let rest = "---\n\n# "@ + title + "\n\n> "@ + summary + "\n\n## Extract\n\n"@;
    search::lemma_has_middle(tags, d, rest);
    assert(head == tags + d + rest);
}

/// The file of an extract holds the text whole, behind the name of the job, and title and
/// address so that a YAML reader gets them back.
pub proof fn extracts_are_kept_whole(id: u128, ex: ExtractedView)
    ensures
        ({
            let f = extract_file_text(id, ex);
            &&& text::ends(f, "\n---\n\n"@ + ex.text + "\n"@)
            &&& search::occurs(f, ids::uuid_text(id))
            &&& search::occurs(f, job::kind_text(ex.kind))
            &&& ex.title matches Some(t) ==> search::occurs(
                f,
                "title"@ + ": \""@ + yaml_text(t) + "\"\n"@,
            )
            &&& ex.source_url matches Some(u) ==> search::occurs(
                f,
                "source_url"@ + ": \""@ + yaml_text(u) + "\"\n"@,
            )
        }),
{
    let f = extract_file_text(id, ex);
    let kind = "kind: \""@ + job::kind_text(ex.kind) + "\"\n---\n\n"@;
    let s0 = "---\n"@ + job_line(id);
    let s1 = s0 + yaml_line("title"@, ex.title);
    let s2 = s1 + yaml_line("source_url"@, ex.source_url);
    let s3 = s2 + kind;
    let s4 = s3 + ex.text;
    search::lemma_occurs_add("---\n"@, job_line(id));
    search::lemma_occurs_add(s0, yaml_line("title"@, ex.title));
    search::lemma_occurs_add(s1, yaml_line("source_url"@, ex.source_url));
    search::lemma_occurs_add(s2, kind);
    search::lemma_occurs_add(s3, ex.text);
    search::lemma_occurs_add(s4, "\n"@);
    search::lemma_has_middle("job_id: \""@, ids::uuid_text(id), "\"\n"@);
    search::lemma_has_middle("kind: \""@, job::kind_text(ex.kind), "\"\n---\n\n"@);
    if ex.title is Some {
        search::lemma_occurs_itself(yaml_line("title"@, ex.title));
    }
    if ex.source_url is Some {
        search::lemma_occurs_itself(yaml_line("source_url"@, ex.source_url));
    }
    reveal_strlit("\"\n---\n\n");
    reveal_strlit("\n---\n\n");
    reveal_strlit("\"");
    assert("\"\n---\n\n"@ == "\""@ + "\n---\n\n"@);
    let tail = "\n---\n\n"@ + ex.text + "\n"@;
    assert(f == (s2 + "kind: \""@ + job::kind_text(ex.kind) + "\""@) + tail);
    assert(f.skip(f.len() - tail.len()) == tail);
}

/// A note is listed by a link to its file, without the ending, under its title, with the
/// beginning of its summary.
pub proof fn sources_are_linked(file: Seq<char>, title: Seq<char>, summary: Seq<char>)
    requires
        !text::ends(file, ".md"@),
    ensures
        ({
            let l = source_line(file + ".md"@, title, summary);
            &&& text::begins(l, "- [["@ + file + "|"@ + title + "]]"@)
            &&& summary.len() <= 120 ==> search::occurs(l, summary)
            &&& summary.len() > 120 ==> search::occurs(l, summary.take(120))
            &&& l.last() == '\n'
        }),
{
    reveal_strlit(".md");
    reveal_strlit("\n");
    reveal_strlit("]]");
    reveal_strlit("]] — ");
    reveal_strlit(" — ");
    let f = file + ".md"@;
    assert(f.skip(f.len() - 3) == ".md"@);
    assert(f.take(f.len() - 3) == file);
    assert(without_md(file) == file);
    assert(without_md(f) == file);
    assert("]] — "@ == "]]"@ + " — "@);
    let l = source_line(f, title, summary);
    let h = "- [["@ + file + "|"@ + title + "]]"@;
    let c = text::clipped(summary, 120);
    assert(l == h + " — "@ + c + "\n"@);
    assert(l.take(h.len() as int) == h);
    search::lemma_has_middle(h + " — "@, c, "\n"@);
}

/// A source is listed right below the line of the heading of the sources, and the rest of
/// the note stays as it was.
pub proof fn sources_stand_below_their_heading(
    before: Seq<char>,
    tail: Seq<char>,
    after: Seq<char>,
    line: Seq<char>,
)
    requires
        forall|i: int| 0 <= i < tail.len() ==> #[trigger] tail[i] != '\n',
        search::found(before + "## Sources"@ + tail + seq!['\n'] + after, "## Sources"@) == Some(
            before.len() as int,
        ),
        !search::occurs(before + "## Sources"@ + tail + seq!['\n'] + after, line),
    ensures
        with_source(before + "## Sources"@ + tail + seq!['\n'] + after, line) == Some(
            before + "## Sources"@ + tail + seq!['\n'] + line + after,
        ),
{
    reveal_strlit("## Sources");
    let body = before + "## Sources"@ + tail + seq!['\n'] + after;
    let i = before.len() as int;
    let n = 10 + tail.len() as int;
    let rest = body.skip(i);
    assert forall|k: int| 0 <= k < n implies #[trigger] rest[k] != '\n' by {
        if k < 10 {
            assert(rest[k] == "## Sources"@[k]);
        } else {
            assert(rest[k] == tail[k - 10]);
        }
    }
    assert(rest[n] == '\n');
    split::lemma_first_of_is(rest, '\n', n);
    let at = vault::below_heading(body, i);
    assert(at == i + n + 1);
    assert(body.take(at) == before + "## Sources"@ + tail + seq!['\n']);
    assert(body.skip(at) == after);
}

/// A note without the heading gets it at its end, with the source below it.
pub proof fn sources_get_a_heading(body: Seq<char>, line: Seq<char>)
    requires
        !search::occurs(body, "## Sources"@),
        !search::occurs(body, line),
    ensures
        with_source(body, line) == Some(body + "\n## Sources\n\n"@ + line),
{
    search::lemma_found(body, "## Sources"@);
    assert(body + ("\n## Sources\n\n"@ + line) == body + "\n## Sources\n\n"@ + line);
}

/// A summary without anybody's help is the first line that has more than twenty bytes
/// without the white space around it, or its first 240 characters.
pub proof fn summaries_quote_the_text(
    body: Seq<char>,
    before: Seq<Seq<char>>,
    line: Seq<char>,
    after: Seq<Seq<char>>,
)
    requires
        split::lines_of(body) == before + seq![line] + after,
        extract::byte_len(text::trimmed(line)) > 20,
        forall|i: int|
            0 <= i < before.len() ==> extract::byte_len(text::trimmed(#[trigger] before[i])) <= 20,
    ensures
        text::trimmed(line).len() <= 240 ==> summary_text(body) == text::trimmed(line),
        text::trimmed(line).len() > 240 ==> summary_text(body) == text::trimmed(line).take(240),
{
    lemma_substantial(before, line, after);
}

proof fn lemma_substantial(before: Seq<Seq<char>>, line: Seq<char>, after: Seq<Seq<char>>)
    requires
        extract::byte_len(text::trimmed(line)) > 20,
        forall|i: int|
            0 <= i < before.len() ==> extract::byte_len(text::trimmed(#[trigger] before[i])) <= 20,
    ensures
        substantial_line(before + seq![line] + after) == Some(text::trimmed(line)),
    decreases before.len(),
{
    let all = before + seq![line] + after;
    if before.len() > 0 {
        let d = before.drop_first();
        assert forall|i: int| 0 <= i < d.len() implies extract::byte_len(
            text::trimmed(#[trigger] d[i]),
        ) <= 20 by {
            assert(d[i] == before[i + 1]);
        }
        lemma_substantial(d, line, after);
        assert(all.drop_first() == d + seq![line] + after);
        assert(all[0] == before[0]);
    } else {
        assert(all[0] == line);
    }
}

/// The section on the source starts on a line of its own, with an empty line before it,
/// whether the text of the note ends with a newline or not.
pub proof fn the_source_stands_apart(markdown: Seq<char>)
    ensures
        text::ends(markdown + line_close(markdown), "\n"@),
        text::ends(markdown, "\n"@) ==> markdown + line_close(markdown) == markdown,
{
    reveal_strlit("\n");
    let s = markdown + line_close(markdown);
    if text::ends(markdown, "\n"@) {
        assert(s == markdown);
    } else {
        assert(s.skip(s.len() - 1) == "\n"@);
    }
}

} // verus!
