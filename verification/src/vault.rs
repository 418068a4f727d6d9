//! Obsidian vault layout helpers.

use vstd::prelude::*;
use vstd::string::*;
use vstd::utf8::*;

use crate::bytes;
use crate::clock;
use crate::clock::Timestamp;
use crate::files;
use crate::order;
use crate::paths;
use crate::search;
use crate::slug;
use crate::split;
use crate::text;

verus! {

/// Standard paths under the vault root.
#[derive(Debug, Clone)]
pub struct VaultPaths {
    pub root: String,
}

/// `a/b` under `root`.
pub open spec fn two_below(root: Seq<char>, a: Seq<char>, b: Seq<char>) -> Seq<char> {
    paths::under(paths::under(root, a), b)
}

fn join2(root: &str, a: &str, b: &str) -> (r: String)
    ensures
        r@ == two_below(root@, a@, b@),
{
    let d = paths::join(root, a);
    paths::join(d.as_str(), b)
}

/// A file and what is written to it.
#[derive(Debug, Clone)]
pub struct Seed {
    pub path: String,
    pub body: String,
}

/// Directories to create and files to seed where they are missing.
#[derive(Debug, Clone)]
pub struct LayoutPlan {
    pub dirs: Vec<String>,
    pub files: Vec<Seed>,
}

/// Paths and contents of a list of files.
pub open spec fn seeds(v: Seq<Seed>) -> Seq<(Seq<char>, Seq<char>)> {
    v.map_values(|s: Seed| (s.path@, s.body@))
}

/// Those of the files that do not exist yet.
pub open spec fn lacking(wanted: Seq<(Seq<char>, Seq<char>)>, existing: Set<Seq<char>>) -> Seq<
    (Seq<char>, Seq<char>),
>
    decreases wanted.len(),
{
    if wanted.len() == 0 {
        Seq::empty()
    } else if existing.contains(wanted.last().0) {
        lacking(wanted.drop_last(), existing)
    } else {
        lacking(wanted.drop_last(), existing).push(wanted.last())
    }
}

impl LayoutPlan {
    /// The files to write, given the paths at which files exist: what exists is kept.
    pub fn missing(&self, existing: &Vec<String>) -> (r: Vec<Seed>)
        ensures
            seeds(r@) == lacking(seeds(self.files@), text::views(existing@).to_set()),
    {
        let mut out: Vec<Seed> = Vec::new();
        let ghost there = text::views(existing@).to_set();
        let ghost all = seeds(self.files@);
        let mut i: usize = 0;
        assert(all.take(0) == Seq::<(Seq<char>, Seq<char>)>::empty());
        assert(seeds(out@) == lacking(all.take(0), there));
        while i < self.files.len()
            invariant
                i <= self.files@.len(),
                there == text::views(existing@).to_set(),
                all == seeds(self.files@),
                seeds(out@) == lacking(all.take(i as int), there),
            decreases self.files@.len() - i,
        {
            let ghost before = seeds(out@);
            let s = &self.files[i];
            assert(all.take(i + 1).drop_last() == all.take(i as int));
            assert(all.take(i + 1).last() == (s.path@, s.body@));
            if !text::listed(existing, s.path.as_str()) {
                out.push(Seed { path: s.path.clone(), body: s.body.clone() });
                assert(seeds(out@) == before.push((s.path@, s.body@)));
            }
            i = i + 1;
        }
        assert(all.take(i as int) == all);
        out
    }
}

/// An entry of a directory.
#[derive(Debug, Clone)]
pub struct Entry {
    pub name: String,
    pub is_dir: bool,
}

/// The names of the directories among the entries that are not hidden.
pub open spec fn project_names(entries: Seq<Entry>) -> Seq<Seq<char>>
    decreases entries.len(),
{
    if entries.len() == 0 {
        Seq::empty()
    } else {
        let e = entries.last();
        let rest = project_names(entries.drop_last());
        if e.is_dir && !text::begins(e.name@, "."@) {
            rest.push(e.name@)
        } else {
            rest
        }
    }
}

/// What the note of a new project holds.
pub open spec fn project_note_text(slug: Seq<char>, title: Seq<char>, date: Seq<char>) -> Seq<char> {
    "---\ntitle: \""@ + title + "\"\nslug: \""@ + slug + "\"\ncreated: "@ + date + "\n---\n\n# "@ + title
        + "\n\n## Sources\n\n## Notes\n\n"@
}

/// The line that lists a project.
pub open spec fn project_link_text(slug: Seq<char>, title: Seq<char>) -> Seq<char> {
    "- [["@ + slug + "/_project|"@ + title + "]]"@
}

/// What a new project needs: its directory, its note if there is none yet, and the
/// line that lists it.
#[derive(Debug, Clone)]
pub struct ProjectPlan {
    pub dir: String,
    pub note_path: String,
    pub note_body: String,
    pub link: String,
}

impl VaultPaths {
    /// The vault under a directory.
    pub fn new(root: String) -> (r: VaultPaths)
        ensures
            r.root == root,
    {
        VaultPaths { root }
    }

    /// Where files are dropped.
    pub fn incoming(&self) -> (r: String)
        ensures
            r@ == two_below(self.root@, "raw"@, "incoming"@),
    {
        join2(self.root.as_str(), "raw", "incoming")
    }

    /// Where finished sources are kept.
    pub fn processed(&self) -> (r: String)
        ensures
            r@ == two_below(self.root@, "raw"@, "processed"@),
    {
        join2(self.root.as_str(), "raw", "processed")
    }

    /// Where extracted text is kept.
    pub fn extracts(&self) -> (r: String)
        ensures
            r@ == two_below(self.root@, "raw"@, "extracts"@),
    {
        join2(self.root.as_str(), "raw", "extracts")
    }

    /// Where projects are kept.
    pub fn projects(&self) -> (r: String)
        ensures
            r@ == two_below(self.root@, "wiki"@, "projects"@),
    {
        join2(self.root.as_str(), "wiki", "projects")
    }

    /// Where one project is kept.
    pub fn project_dir(&self, slug: &str) -> (r: String)
        ensures
            r@ == paths::under(two_below(self.root@, "wiki"@, "projects"@), slug@),
    {
        let d = self.projects();
        paths::join(d.as_str(), slug)
    }

    /// The list of projects.
    pub fn index_md(&self) -> (r: String)
        ensures
            r@ == paths::under(self.root@, "index.md"@),
    {
        paths::join(self.root.as_str(), "index.md")
    }

    /// The map of the vault.
    pub fn map_of_content(&self) -> (r: String)
        ensures
            r@ == paths::under(self.root@, "map-of-content.md"@),
    {
        paths::join(self.root.as_str(), "map-of-content.md")
    }

    /// Notes that belong to no project.
    pub fn inbox_md(&self) -> (r: String)
        ensures
            r@ == two_below(self.root@, "wiki"@, "inbox.md"@),
    {
        join2(self.root.as_str(), "wiki", "inbox.md")
    }

    /// The required directory tree, and the index files that are seeded if missing.
    pub fn ensure_layout(&self) -> (r: LayoutPlan)
        ensures
            text::views(r.dirs@) == layout_dirs(self.root@),
            seeds(r.files@) == layout_seeds(self.root@),
    {
        let mut dirs: Vec<String> = Vec::new();
        text::push_text(&mut dirs, self.incoming());
        text::push_text(&mut dirs, self.processed());
        text::push_text(&mut dirs, self.extracts());
        text::push_text(&mut dirs, self.projects());
        text::push_text(&mut dirs, paths::join(self.root.as_str(), "wiki"));
        let mut files: Vec<Seed> = Vec::new();
        files.push(Seed { path: self.index_md(), body: INDEX_SEED.to_owned() });
        files.push(Seed { path: self.map_of_content(), body: MAP_SEED.to_owned() });
        files.push(Seed { path: self.inbox_md(), body: INBOX_SEED.to_owned() });
        let incoming = self.incoming();
        files.push(
            Seed {
                path: paths::join(incoming.as_str(), "README.md"),
                body: INCOMING_SEED.to_owned(),
            },
        );
        assert(text::views(dirs@) == layout_dirs(self.root@));
        assert(seeds(files@) == layout_seeds(self.root@));
        LayoutPlan { dirs, files }
    }

    /// The slugs of the projects, sorted: the names of the directories under
    /// `wiki/projects` that are not hidden.
    pub fn list_project_slugs(entries: &Vec<Entry>) -> (r: Vec<String>)
        ensures
            order::sorted(text::views(r@)),
            text::views(r@).to_multiset() == project_names(entries@).to_multiset(),
    {
        let mut out: Vec<String> = Vec::new();
        let mut i: usize = 0;
        assert(text::views(out@) == project_names(entries@.take(0)));
        while i < entries.len()
            invariant
                i <= entries@.len(),
                text::views(out@) == project_names(entries@.take(i as int)),
            decreases entries@.len() - i,
        {
            assert(entries@.take(i + 1).drop_last() == entries@.take(i as int));
            if entries[i].is_dir && !text::starts_with(entries[i].name.as_str(), ".") {
                text::push_text(&mut out, entries[i].name.clone());
            }
            i = i + 1;
        }
        assert(entries@.take(i as int) == entries@);
        order::sort(out)
    }

    /// What a project needs, on a given day.
    pub fn project_plan(&self, slug: &str, title: &str, now: Timestamp) -> (r: ProjectPlan)
        requires
            now.dated(),
        ensures
            self.is_plan(r, slug@, title@, now),
    {
        let date = now.date();
        let mut body = "---\ntitle: \"".to_owned();
        body.append(title);
        body.append("\"\nslug: \"");
        body.append(slug);
        body.append("\"\ncreated: ");
        body.append(date.as_str());
        body.append("\n---\n\n# ");
        body.append(title);
        body.append("\n\n## Sources\n\n## Notes\n\n");
        let mut link = "- [[".to_owned();
        link.append(slug);
        link.append("/_project|");
        link.append(title);
        link.append("]]");
        let dir = self.project_dir(slug);
        let note_path = paths::join(dir.as_str(), "_project.md");
        ProjectPlan { dir, note_path, note_body: body, link }
    }

    /// `p` is what the project needs on the day of `now`.
    pub open spec fn is_plan(
        self,
        p: ProjectPlan,
        slug: Seq<char>,
        title: Seq<char>,
        now: Timestamp,
    ) -> bool {
        let dir = paths::under(two_below(self.root@, "wiki"@, "projects"@), slug);
        &&& p.dir@ == dir
        &&& p.note_path@ == paths::under(dir, "_project.md"@)
        &&& p.note_body@ == project_note_text(slug, title, now.date_text())
        &&& p.link@ == project_link_text(slug, title)
    }

    /// What a project needs so that its folder and its root note exist.
    pub fn ensure_project(&self, slug: &str, title: &str) -> (r: ProjectPlan)
        ensures
            exists|now: Timestamp|
                now.dated() && #[trigger] self.is_plan(r, slug@, title@, now),
    {
        let now = clock::utc_now();
        self.project_plan(slug, title, now)
    }

    /// Where a finished source goes: its name with the job id in front of it.
    pub fn move_to_processed(&self, source: &str, job_id: &str) -> (r: String)
        ensures
            r@ == processed_path(self.root@, source@, job_id@),
    {
        let name = paths::file_name(source);
        let mut file = job_id.to_owned();
        file.append("_");
        file.append(text::text_or(&name, "item.bin"));
        let dir = self.processed();
        paths::join(dir.as_str(), file.as_str())
    }
}

/// Two plain names below a directory lie inside it.
pub proof fn lemma_two_below_inside(root: Seq<char>, a: Seq<char>, b: Seq<char>)
    requires
        paths::plain_name(a),
        paths::plain_name(b),
    ensures
        paths::inside(two_below(root, a, b), root),
{
    paths::lemma_components_under(root, a);
    paths::lemma_components_under(paths::under(root, a), b);
    paths::lemma_inside_trans(two_below(root, a, b), paths::under(root, a), root);
}

/// A project lies inside the vault, whatever the text that its slug was made of.
pub proof fn projects_stay_in_the_vault(root: Seq<char>, named: Seq<char>)
    ensures
        paths::inside(
            paths::under(two_below(root, "wiki"@, "projects"@), slug::slug_of(named)),
            two_below(root, "wiki"@, "projects"@),
        ),
        paths::inside(
            paths::under(two_below(root, "wiki"@, "projects"@), slug::slug_of(named)),
            root,
        ),
{
    reveal_strlit("wiki");
    reveal_strlit("projects");
    lemma_two_below_inside(root, "wiki"@, "projects"@);
    let s = slug::slug_of(named);
    slug::slug_is_a_safe_name(named);
    assert(paths::plain_name(s)) by {
        assert(slug::slug_char(s[0]));
        assert forall|k: int| 0 <= k < s.len() implies #[trigger] s[k] != '/' by {}
    }
    let projects = two_below(root, "wiki"@, "projects"@);
    paths::lemma_components_under(projects, s);
    paths::lemma_inside_trans(paths::under(projects, s), projects, root);
}

/// Where a finished source is kept.
pub open spec fn processed_path(root: Seq<char>, source: Seq<char>, job_id: Seq<char>) -> Seq<char> {
    let name = match paths::name_of(source) {
        Some(n) => n,
        None => "item.bin"@,
    };
    paths::under(two_below(root, "raw"@, "processed"@), job_id + "_"@ + name)
}

/// The directories of a vault.
pub open spec fn layout_dirs(root: Seq<char>) -> Seq<Seq<char>> {
    seq![
        two_below(root, "raw"@, "incoming"@),
        two_below(root, "raw"@, "processed"@),
        two_below(root, "raw"@, "extracts"@),
        two_below(root, "wiki"@, "projects"@),
        paths::under(root, "wiki"@),
    ]
}

/// The files that a vault is seeded with.
pub open spec fn layout_seeds(root: Seq<char>) -> Seq<(Seq<char>, Seq<char>)> {
    seq![
        (paths::under(root, "index.md"@), INDEX_SEED@),
        (paths::under(root, "map-of-content.md"@), MAP_SEED@),
        (two_below(root, "wiki"@, "inbox.md"@), INBOX_SEED@),
        (paths::under(two_below(root, "raw"@, "incoming"@), "README.md"@), INCOMING_SEED@),
    ]
}

/// The list of projects of a new vault.
pub const INDEX_SEED: &'static str = "# Knowledge index\n\nThis file lists research projects. The ingest tool updates this file.\n\n## Projects\n\n(none yet)\n";

/// The map of a new vault.
pub const MAP_SEED: &'static str = "# Map of content\n\nHigh-level map of the vault. The ingest tool updates project links here.\n\n## Projects\n\n(none yet)\n";

/// The inbox of a new vault.
pub const INBOX_SEED: &'static str = "# Inbox\n\nNotes that are not yet assigned to a project appear here.\n";

/// What is said where files are dropped.
pub const INCOMING_SEED: &'static str = "# Incoming\n\nDrop research files here, or use **Send to Grok Research** in the browser.\n\nThe `research-ingest` watcher processes new files and moves them to `raw/processed/`.\n";

/// The file is a Markdown note.
pub open spec fn is_note(path: Seq<char>) -> bool {
    paths::extension_of(path) is Some && paths::lower_extension(path) == "md"@
}

/// Whether the file is a Markdown note.
pub fn is_note_file(path: &str) -> (r: bool)
    ensures
        r == is_note(path@),
{
    match paths::extension(path) {
        Some(e) => {
            let l = text::to_lower(e.as_str());
            text::same(l.as_str(), "md")
        },
        None => false,
    }
}

/// A text has `q`, whatever the case of its letters; `q` is in small letters.
pub open spec fn mentions(body: Seq<char>, q: Seq<char>) -> bool {
    search::occurs(text::lowered(body), q)
}

/// Which bytes of the text are shown around the first place of `q`.
pub open spec fn snippet_span(body: Seq<char>, q: Seq<char>) -> Option<(int, int)> {
    match search::found(text::lowered(body), q) {
        Some(k) => {
            let i = encode_utf8(text::lowered(body).take(k)).len() as int;
            let n = encode_utf8(body).len() as int;
            let end = i + encode_utf8(q).len() + 80;
            Some((
                if i >= 40 {
                    i - 40
                } else {
                    0
                },
                if end < n {
                    end
                } else {
                    n
                },
            ))
        },
        None => None,
    }
}

/// The bytes to show start and stop between two characters.
pub open spec fn snippet_fits(body: Seq<char>, q: Seq<char>) -> bool {
    match snippet_span(body, q) {
        Some((a, b)) => is_char_boundary(encode_utf8(body), a) && is_char_boundary(
            encode_utf8(body),
            b,
        ),
        None => true,
    }
}

/// What is shown of a text: some of what stands around `q`, in one line, or else its
/// beginning.
pub open spec fn snippet_text(body: Seq<char>, q: Seq<char>, max: int) -> Seq<char> {
    match snippet_span(body, q) {
        Some((a, b)) => search::replaced(
            text::clipped(decode_utf8(encode_utf8(body).subrange(a, b)), max),
            "\n"@,
            " "@,
        ),
        None => text::clipped(body, max),
    }
}

/// Small letters take as many bytes as capitals.
proof fn lemma_lowered_width(s: Seq<char>)
    ensures
        encode_utf8(text::lowered(s)).len() == encode_utf8(s).len(),
    decreases s.len(),
{
    if s.len() > 0 {
        let l = text::lowered(s);
        lemma_lowered_width(s.drop_first());
        assert(l.drop_first() == text::lowered(s.drop_first()));
        let c = s[0];
        assert(l[0] == text::lower_char(c));
        if 'A' <= c && c <= 'Z' {
            assert(text::lower_char(c) <= '\u{7f}');
        }
    }
}

/// The first place of `q` and the bytes that it takes lie in the text.
proof fn lemma_span(body: Seq<char>, q: Seq<char>, k: int)
    requires
        search::found(text::lowered(body), q) == Some(k),
    ensures
        0 <= k <= body.len(),
        encode_utf8(text::lowered(body).take(k)).len() + encode_utf8(q).len() <= encode_utf8(body).len(),
{
    let l = text::lowered(body);
    search::lemma_found(l, q);
    let a = l.take(k);
    let b = l.subrange(k, k + q.len());
    let c = l.skip(k + q.len());
    assert(l == a + (b + c));
    bytes::lemma_encode_add(a, b + c);
    bytes::lemma_encode_add(b, c);
    lemma_lowered_width(body);
}

/// Whether the bytes to show start and stop between two characters. What is shown is
/// defined only then.
pub fn can_show(body: &str, q_lower: &str) -> (r: bool)
    ensures
        r == snippet_fits(body@, q_lower@),
{
    match span(body, q_lower) {
        Some((a, b)) => body.is_char_boundary(a) && body.is_char_boundary(b),
        None => true,
    }
}

/// Which bytes of the text are shown.
fn span(body: &str, q_lower: &str) -> (r: Option<(usize, usize)>)
    ensures
        match r {
            Some((a, b)) => snippet_span(body@, q_lower@) == Some((a as int, b as int)) && a <= b <= encode_utf8(body@).len(),
            None => snippet_span(body@, q_lower@) is None,
        },
{
    let lower = text::to_lower(body);
    match search::find(lower.as_str(), q_lower) {
        Some(k) => {
            let head = text::clip(lower.as_str(), k);
            proof {
                lemma_span(body@, q_lower@, k as int);
                assert(text::clipped(lower@, k as int) == lower@.take(k as int));
            }
            let i: usize = head.as_str().as_bytes().len();
            let m: usize = q_lower.as_bytes().len();
            let n: usize = body.as_bytes().len();
            let start: usize = if i >= 40 {
                i - 40
            } else {
                0
            };
            let end: usize = if n - (i + m) > 80 {
                i + m + 80
            } else {
                n
            };
            Some((start, end))
        },
        None => None,
    }
}

/// What is shown of a text around the first place of `q_lower`.
pub fn first_snippet(body: &str, q_lower: &str, max: usize) -> (r: String)
    requires
        snippet_fits(body@, q_lower@),
    ensures
        r@ == snippet_text(body@, q_lower@, max as int),
{
    match span(body, q_lower) {
        Some((a, b)) => {
            let ghost all = encode_utf8(body@);
            proof {
                encode_utf8_valid_utf8(body@);
            }
            let (_, tail) = body.split_at(a);
            proof {
                encode_utf8_valid_utf8(tail@);
                let t = all.skip(a as int);
                assert(tail.spec_bytes() == t);
                assert(b < all.len() ==> t[b - a] == all[b as int]);
                if b < all.len() {
                    is_char_boundary_iff_not_is_continuation_byte(all, b as int);
                    is_char_boundary_iff_not_is_continuation_byte(t, b - a);
                } else {
                    is_char_boundary_start_end_of_seq(t);
                }
            }
            let (part, _) = tail.split_at(b - a);
            proof {
                assert(part.spec_bytes() == all.subrange(a as int, b as int));
                encode_utf8_decode_utf8(part@);
                reveal_strlit("\n");
            }
            let short = text::clip(part, max);
            search::replace(short.as_str(), "\n", " ")
        },
        None => text::clip(body, max),
    }
}

/// A note that was found: where it stands and what is shown of it.
#[derive(Debug, Clone)]
pub struct Hit {
    pub path: String,
    pub snippet: String,
}

/// Paths and snippets of a list of hits.
pub open spec fn hits_view(v: Seq<Hit>) -> Seq<(Seq<char>, Seq<char>)> {
    v.map_values(|h: Hit| (h.path@, h.snippet@))
}

/// What was found once one more note was looked at; a note is its path and its text.
pub open spec fn with_note(
    found: Seq<(Seq<char>, Seq<char>)>,
    note: (Seq<char>, Seq<char>),
    q: Seq<char>,
) -> Seq<(Seq<char>, Seq<char>)> {
    if mentions(note.1, q) {
        found.push((note.0, snippet_text(note.1, q, 160)))
    } else {
        found
    }
}

/// The search is over with the note that was just looked at: it was found, and enough
/// were found with it.
pub open spec fn search_over(
    found: Seq<(Seq<char>, Seq<char>)>,
    body: Seq<char>,
    q: Seq<char>,
    most: usize,
) -> bool {
    mentions(body, q) && found.len() >= most
}

/// What is looked for: the text that is searched for, in small letters.
pub open spec fn search_key(query: Seq<char>) -> Seq<char> {
    text::lowered(query)
}

/// A search through the notes of a vault that looks at one note after the other.
#[derive(Debug, Clone)]
pub struct NoteSearch {
    query: String,
    limit: usize,
    hits: Vec<Hit>,
}

impl NoteSearch {
    /// What is searched for, in small letters.
    pub closed spec fn sought(self) -> Seq<char> {
        self.query@
    }

    /// After how many hits the search stops.
    pub closed spec fn most(self) -> usize {
        self.limit
    }

    /// What was found so far.
    pub closed spec fn found(self) -> Seq<(Seq<char>, Seq<char>)> {
        hits_view(self.hits@)
    }

    /// A search for a text, whatever the case of its letters.
    pub fn new(query: &str, limit: usize) -> (r: NoteSearch)
        ensures
            r.sought() == search_key(query@),
            r.most() == limit,
            r.found().len() == 0,
    {
        NoteSearch { query: text::to_lower(query), limit, hits: Vec::new() }
    }

    /// Whether the search could look at a note: what would be shown of it starts and
    /// stops between two characters.
    pub fn can_offer(&self, body: &str) -> (r: bool)
        ensures
            r == snippet_fits(body@, self.sought()),
    {
        can_show(body, self.query.as_str())
    }

    /// Looks at one note. Tells whether the search is over.
    pub fn offer(&mut self, path: &str, body: &str) -> (r: bool)
        requires
            snippet_fits(body@, old(self).sought()),
        ensures
            final(self).sought() == old(self).sought(),
            final(self).most() == old(self).most(),
            final(self).found() == with_note(
                old(self).found(),
                (path@, body@),
                old(self).sought(),
            ),
            r == search_over(final(self).found(), body@, old(self).sought(), old(self).most()),
    {
        let lower = text::to_lower(body);
        if search::contains(lower.as_str(), self.query.as_str()) {
            let snippet = first_snippet(body, self.query.as_str(), 160);
            let ghost before = self.hits@;
            self.hits.push(Hit { path: path.to_owned(), snippet });
            assert(hits_view(self.hits@) == hits_view(before).push((path@, snippet@)));
            self.hits.len() >= self.limit
        } else {
            false
        }
    }

    /// What was found.
    pub fn finish(self) -> (r: Vec<Hit>)
        ensures
            hits_view(r@) == self.found(),
    {
        self.hits
    }
}

/// Where a line is put below a heading: behind the line of the heading, or at the end
/// where that line is the last.
pub open spec fn below_heading(body: Seq<char>, after: int) -> int {
    let i = split::first_of(body.skip(after), '\n');
    if i < body.skip(after).len() {
        after + i + 1
    } else {
        body.len() as int
    }
}

/// The text in which a line is put below a heading, before it is put there.
pub open spec fn without_placeholder(body: Option<Seq<char>>, heading: Seq<char>) -> Seq<char> {
    search::replaced(
        match body {
            Some(b) => b,
            None => heading + "\n\n"@,
        },
        "(none yet)\n"@,
        ""@,
    )
}

/// The text with a line put below a heading, which is added where it is missing.
pub open spec fn with_bullet(body: Seq<char>, heading: Seq<char>, bullet: Seq<char>) -> Seq<char> {
    match search::found(body, heading) {
        Some(pos) => search::inserted(
            body,
            below_heading(body, pos + heading.len()),
            bullet + "\n"@,
        ),
        None => body + ("\n"@ + heading + "\n\n"@ + bullet + "\n"@),
    }
}

/// What becomes of a text, or of a missing file, when a line is to stand below a
/// heading: nothing where it holds the line.
pub open spec fn upserted(body: Option<Seq<char>>, heading: Seq<char>, bullet: Seq<char>) -> Option<
    Seq<char>,
> {
    let start = match body {
        Some(b) => b,
        None => heading + "\n\n"@,
    };
    if search::occurs(start, bullet) {
        None
    } else {
        Some(with_bullet(without_placeholder(body, heading), heading, bullet))
    }
}

/// Where a line is put below a heading that ends, or stands, at `after`.
pub(crate) fn line_below(body: &str, after: usize) -> (r: usize)
    requires
        after <= body@.len(),
    ensures
        r == below_heading(body@, after as int),
        r <= body@.len(),
{
    let v = text::chars_of(body);
    let n: usize = v.len();
    let ghost rest = body@.skip(after as int);
    let mut i: usize = after;
    while i < n && v[i] != '\n'
        invariant
            v@ == body@,
            n == v@.len(),
            after <= i <= n,
            rest == body@.skip(after as int),
            forall|k: int| 0 <= k < i - after ==> #[trigger] rest[k] != '\n',
        decreases n - i,
    {
        i = i + 1;
    }
    proof {
        split::lemma_first_of_is(rest, '\n', i - after);
    }
    if i < n {
        i + 1
    } else {
        n
    }
}

/// The text to write so that a line stands below a heading, if one has to be written.
pub fn upsert_bullet_line(body: Option<&str>, section_heading: &str, bullet: &str) -> (r: Option<
    String,
>)
    ensures
        text::opt_view(r) == upserted(text::opt_str(body), section_heading@, bullet@),
{
    let start = match body {
        Some(b) => b.to_owned(),
        None => {
            let mut s = section_heading.to_owned();
            s.append("\n\n");
            s
        },
    };
    if search::contains(start.as_str(), bullet) {
        return None;
    }
    proof {
        reveal_strlit("(none yet)\n");
    }
    let mut text = search::replace(start.as_str(), "(none yet)\n", "");
    match search::find(text.as_str(), section_heading) {
        Some(pos) => {
            let h: usize = section_heading.unicode_len();
            let at = line_below(text.as_str(), pos + h);
            let mut line = bullet.to_owned();
            line.append("\n");
            Some(search::insert_at(text.as_str(), at, line.as_str()))
        },
        None => {
            let mut add = "\n".to_owned();
            add.append(section_heading);
            add.append("\n\n");
            add.append(bullet);
            add.append("\n");
            text.append(add.as_str());
            Some(text)
        },
    }
}

/// The text with a line for the project among the projects, if one has to be written.
pub fn upsert_project(body: Option<&str>, link: &str) -> (r: Option<String>)
    ensures
        text::opt_view(r) == upserted(text::opt_str(body), "## Projects"@, link@),
{
    upsert_bullet_line(body, "## Projects", link)
}

/// The place below a heading lies in the text, at the start of a line or at the end.
pub proof fn lemma_below_heading(body: Seq<char>, after: int)
    requires
        0 <= after <= body.len(),
    ensures
        after <= below_heading(body, after) <= body.len(),
        below_heading(body, after) < body.len() ==> below_heading(body, after) > 0 && body[below_heading(
            body,
            after,
        ) - 1] == '\n',
{
    let rest = body.skip(after);
    split::lemma_first_of(rest, '\n');
    let i = split::first_of(rest, '\n');
    if i < rest.len() {
        assert(rest[i] == body[after + i]);
    }
}

/// A line that was put below a heading stands in the text.
proof fn lemma_with_bullet_has_it(body: Seq<char>, heading: Seq<char>, bullet: Seq<char>)
    ensures
        search::occurs(with_bullet(body, heading, bullet), bullet),
{
    search::lemma_found(body, heading);
    match search::found(body, heading) {
        Some(pos) => {
            let at = below_heading(body, pos + heading.len());
            lemma_below_heading(body, pos + heading.len());
            assert(search::inserted(body, at, bullet + "\n"@) == body.take(at) + bullet + ("\n"@
                + body.skip(at)));
            search::lemma_has_middle(body.take(at), bullet, "\n"@ + body.skip(at));
        },
        None => {
            let head = body + ("\n"@ + heading + "\n\n"@);
            assert(with_bullet(body, heading, bullet) == head + bullet + "\n"@);
            search::lemma_has_middle(head, bullet, "\n"@);
        },
    }
}

/// Listing a project twice is listing it once: a second time finds nothing to write.
pub proof fn listing_twice_is_listing_once(
    body: Option<Seq<char>>,
    heading: Seq<char>,
    bullet: Seq<char>,
)
    ensures
        match upserted(body, heading, bullet) {
            Some(b) => search::occurs(b, bullet) && upserted(Some(b), heading, bullet) is None,
            None => body is Some ==> search::occurs(body.unwrap(), bullet),
        },
{
    lemma_with_bullet_has_it(without_placeholder(body, heading), heading, bullet);
}

/// Listing a project takes no line away: whatever stood within one line, once the
/// placeholder is gone, still stands there.
pub proof fn listing_keeps_other_lines(
    body: Option<Seq<char>>,
    heading: Seq<char>,
    bullet: Seq<char>,
    line: Seq<char>,
)
    requires
        upserted(body, heading, bullet) is Some,
        search::occurs(without_placeholder(body, heading), line),
        forall|i: int| 0 <= i < line.len() ==> #[trigger] line[i] != '\n',
    ensures
        search::occurs(upserted(body, heading, bullet).unwrap(), line),
{
    let s = without_placeholder(body, heading);
    let r = with_bullet(s, heading, bullet);
    let p = choose|p: int| search::occurs_at(s, line, p);
    let m = line.len() as int;
    search::lemma_found(s, heading);
    match search::found(s, heading) {
        Some(pos) => {
            let at = below_heading(s, pos + heading.len());
            lemma_below_heading(s, pos + heading.len());
            let add = bullet + "\n"@;
            if p + m <= at {
                assert(r.subrange(p, p + m) == s.subrange(p, p + m));
                assert(search::occurs_at(r, line, p));
            } else if p >= at {
                let q = p + add.len();
                assert(r.subrange(q, q + m) == s.subrange(p, p + m));
                assert(search::occurs_at(r, line, q));
            } else {
                assert(s[at - 1] == '\n');
                assert(s.subrange(p, p + m)[at - 1 - p] == s[at - 1]);
                assert(line[at - 1 - p] != '\n');
            }
        },
        None => {
            assert(r.subrange(p, p + m) == s.subrange(p, p + m));
            assert(search::occurs_at(r, line, p));
        },
    }
}

/// What a search finds that looks at one note after the other until it is over.
pub open spec fn searched(
    found: Seq<(Seq<char>, Seq<char>)>,
    notes: Seq<(Seq<char>, Seq<char>)>,
    q: Seq<char>,
    most: usize,
) -> Seq<(Seq<char>, Seq<char>)>
    decreases notes.len(),
{
    if notes.len() == 0 {
        found
    } else {
        let f = with_note(found, notes[0], q);
        if search_over(f, notes[0].1, q, most) {
            f
        } else {
            searched(f, notes.drop_first(), q, most)
        }
    }
}

/// All notes that have what is searched for, in order, with what is shown of them.
pub open spec fn all_hits(notes: Seq<(Seq<char>, Seq<char>)>, q: Seq<char>) -> Seq<
    (Seq<char>, Seq<char>),
>
    decreases notes.len(),
{
    if notes.len() == 0 {
        Seq::empty()
    } else {
        with_note(Seq::empty(), notes[0], q) + all_hits(notes.drop_first(), q)
    }
}

/// The first `n` of some hits, or all where there are fewer.
pub open spec fn first_hits(hits: Seq<(Seq<char>, Seq<char>)>, n: int) -> Seq<
    (Seq<char>, Seq<char>),
> {
    if n < hits.len() {
        hits.take(n)
    } else {
        hits
    }
}

proof fn lemma_searched(
    found: Seq<(Seq<char>, Seq<char>)>,
    notes: Seq<(Seq<char>, Seq<char>)>,
    q: Seq<char>,
    most: usize,
    n: int,
)
    requires
        n == if most > 0 {
            most as int
        } else {
            1
        },
        found.len() < n,
    ensures
        searched(found, notes, q, most) == first_hits(found + all_hits(notes, q), n),
    decreases notes.len(),
{
    if notes.len() == 0 {
        assert(found + all_hits(notes, q) == found);
    } else {
        let f = with_note(found, notes[0], q);
        let rest = notes.drop_first();
        assert(found + all_hits(notes, q) == f + all_hits(rest, q));
        if search_over(f, notes[0].1, q, most) {
            assert((f + all_hits(rest, q)).take(n) == f);
            assert(all_hits(rest, q).len() == 0 ==> f + all_hits(rest, q) == f);
        } else {
            lemma_searched(f, rest, q, most, n);
        }
    }
}

/// A search finds the first notes that have what is searched for, in the order in which
/// they are looked at, and no others: as many as the limit says, or one where it says
/// none.
pub proof fn search_finds_the_first_notes(
    notes: Seq<(Seq<char>, Seq<char>)>,
    q: Seq<char>,
    most: usize,
)
    ensures
        searched(Seq::empty(), notes, q, most) == first_hits(
            all_hits(notes, q),
            if most > 0 {
                most as int
            } else {
                1
            },
        ),
{
    let n: int = if most > 0 {
        most as int
    } else {
        1
    };
    lemma_searched(Seq::empty(), notes, q, most, n);
    assert(Seq::<(Seq<char>, Seq<char>)>::empty() + all_hits(notes, q) == all_hits(notes, q));
}

/// The files of a vault once its layout was ensured.
pub open spec fn laid_out(files: Map<Seq<char>, Seq<u8>>, root: Seq<char>) -> Map<
    Seq<char>,
    Seq<u8>,
> {
    files::written(files, lacking(layout_seeds(root), files.dom()))
}

/// Every file is still there, and holds what it held.
pub open spec fn files_kept(
    files: Map<Seq<char>, Seq<u8>>,
    after: Map<Seq<char>, Seq<u8>>,
) -> bool {
    forall|p: Seq<char>| #[trigger]
        files.dom().contains(p) ==> after.dom().contains(p) && after[p] == files[p]
}

/// Every new file is one of those wanted, and holds what it was to hold.
pub open spec fn files_added(
    files: Map<Seq<char>, Seq<u8>>,
    after: Map<Seq<char>, Seq<u8>>,
    wanted: Seq<(Seq<char>, Seq<char>)>,
) -> bool {
    forall|p: Seq<char>| #[trigger]
        after.dom().contains(p) && !files.dom().contains(p) ==> exists|k: int|
            0 <= k < wanted.len() && (#[trigger] wanted[k]).0 == p && after[p] == encode_utf8(
                wanted[k].1,
            )
}

/// Writing what is lacking keeps what exists, adds what is wanted, and nothing else.
proof fn lemma_lacking(files: Map<Seq<char>, Seq<u8>>, wanted: Seq<(Seq<char>, Seq<char>)>)
    ensures
        ({
            let after = files::written(files, lacking(wanted, files.dom()));
            &&& files_kept(files, after)
            &&& forall|k: int|
                0 <= k < wanted.len() ==> after.dom().contains((#[trigger] wanted[k]).0)
            &&& files_added(files, after, wanted)
        }),
    decreases wanted.len(),
{
    if wanted.len() > 0 {
        let d = wanted.drop_last();
        let w = wanted.last();
        lemma_lacking(files, d);
        let before = files::written(files, lacking(d, files.dom()));
        let after = files::written(files, lacking(wanted, files.dom()));
        if !files.dom().contains(w.0) {
            let l = lacking(d, files.dom());
            assert(l.push(w).drop_last() == l);
            assert(after == before.insert(w.0, encode_utf8(w.1)));
        }
        assert(wanted[wanted.len() - 1] == w);
        assert forall|k: int| 0 <= k < wanted.len() implies after.dom().contains(
            (#[trigger] wanted[k]).0,
        ) by {
            if k < d.len() {
                assert(d[k] == wanted[k]);
            }
        }
        assert forall|p: Seq<char>| #[trigger]
            after.dom().contains(p) && !files.dom().contains(p) implies exists|k: int|
            0 <= k < wanted.len() && (#[trigger] wanted[k]).0 == p && after[p] == encode_utf8(
                wanted[k].1,
            ) by {
            if p == w.0 {
                assert(wanted[wanted.len() - 1].0 == p);
            } else {
                assert(before.dom().contains(p));
                let k = choose|k: int|
                    0 <= k < d.len() && (#[trigger] d[k]).0 == p && before[p] == encode_utf8(d[k].1);
                assert(wanted[k] == d[k]);
            }
        }
    }
}

proof fn lemma_nothing_lacking(wanted: Seq<(Seq<char>, Seq<char>)>, existing: Set<Seq<char>>)
    requires
        forall|k: int| 0 <= k < wanted.len() ==> existing.contains((#[trigger] wanted[k]).0),
    ensures
        lacking(wanted, existing).len() == 0,
    decreases wanted.len(),
{
    if wanted.len() > 0 {
        let d = wanted.drop_last();
        assert(wanted[wanted.len() - 1] == wanted.last());
        assert forall|k: int| 0 <= k < d.len() implies existing.contains((#[trigger] d[k]).0) by {
            assert(d[k] == wanted[k]);
        }
        lemma_nothing_lacking(d, existing);
    }
}

/// Ensuring the layout of a vault keeps every file that exists as it is, adds the files
/// that are missing with what they are seeded with, and changes nothing else. Doing it
/// again changes nothing. The same holds of its directories.
pub proof fn layout_is_ensured_once(
    files: Map<Seq<char>, Seq<u8>>,
    dirs: Set<Seq<char>>,
    root: Seq<char>,
)
    ensures
        ({
            let after = laid_out(files, root);
            let made = dirs.union(layout_dirs(root).to_set());
            let wanted = layout_seeds(root);
            &&& files_kept(files, after)
            &&& forall|k: int|
                0 <= k < wanted.len() ==> after.dom().contains((#[trigger] wanted[k]).0)
            &&& files_added(files, after, wanted)
            &&& laid_out(after, root) == after
            &&& forall|k: int|
                0 <= k < layout_dirs(root).len() ==> made.contains(#[trigger] layout_dirs(root)[k])
            &&& made.union(layout_dirs(root).to_set()) == made
        }),
{
    let after = laid_out(files, root);
    let wanted = layout_seeds(root);
    let d = layout_dirs(root);
    lemma_lacking(files, wanted);
    lemma_nothing_lacking(wanted, after.dom());
    assert forall|k: int| 0 <= k < d.len() implies dirs.union(d.to_set()).contains(#[trigger] d[k]) by {
        assert(d.contains(d[k]));
    }
    assert(dirs.union(d.to_set()).union(d.to_set()) =~= dirs.union(d.to_set()));
}

/// A file with its new text, where it has one.
pub open spec fn update_of(path: Seq<char>, body: Option<Seq<char>>) -> Seq<(Seq<char>, Seq<char>)> {
    match body {
        Some(b) => seq![(path, b)],
        None => Seq::empty(),
    }
}

/// What is written so that a project exists and is listed: its note, where there is
/// none, and the two indexes, where they lack the line `link`.
pub open spec fn project_updates(
    root: Seq<char>,
    note: (Seq<char>, Seq<char>),
    link: Seq<char>,
    note_exists: bool,
    index: Option<Seq<char>>,
    map: Option<Seq<char>>,
) -> Seq<(Seq<char>, Seq<char>)> {
    (if note_exists {
        Seq::empty()
    } else {
        seq![note]
    }) + update_of(
        paths::under(root, "index.md"@),
        upserted(index, "## Projects"@, link),
    ) + update_of(
        paths::under(root, "map-of-content.md"@),
        upserted(map, "## Projects"@, link),
    )
}

/// The same files, with one more that is written to if it has a text.
fn push_update(out: &mut Vec<Seed>, path: String, body: Option<String>)
    ensures
        seeds(final(out)@) == seeds(old(out)@) + update_of(path@, text::opt_view(body)),
{
    let ghost before = seeds(out@);
    match body {
        Some(b) => {
            out.push(Seed { path, body: b });
            assert(seeds(out@) == before.push((path@, b@)));
            assert(before.push((path@, b@)) == before + seq![(path@, b@)]);
        },
        None => {
            assert(before + Seq::empty() == before);
        },
    }
}

impl VaultPaths {
    /// What to write so that a project exists and is listed, given whether its note
    /// exists and what the two indexes hold, where they exist.
    pub fn project_writes(
        &self,
        plan: &ProjectPlan,
        note_exists: bool,
        index: Option<&str>,
        map: Option<&str>,
    ) -> (r: Vec<Seed>)
        ensures
            seeds(r@) == project_updates(
                self.root@,
                (plan.note_path@, plan.note_body@),
                plan.link@,
                note_exists,
                text::opt_str(index),
                text::opt_str(map),
            ),
    {
        let mut out: Vec<Seed> = Vec::new();
        if !note_exists {
            out.push(Seed { path: plan.note_path.clone(), body: plan.note_body.clone() });
        }
        assert(seeds(out@) == if note_exists {
            Seq::empty()
        } else {
            seq![(plan.note_path@, plan.note_body@)]
        });
        push_update(&mut out, self.index_md(), upsert_project(index, plan.link.as_str()));
        push_update(&mut out, self.map_of_content(), upsert_project(map, plan.link.as_str()));
        out
    }
}

/// Where the note of a project is kept.
pub open spec fn project_note(root: Seq<char>, slug: Seq<char>) -> Seq<char> {
    paths::under(paths::under(two_below(root, "wiki"@, "projects"@), slug), "_project.md"@)
}

/// The files of a vault once a project was ensured on a given day.
pub open spec fn set_up(
    files: Map<Seq<char>, Seq<u8>>,
    root: Seq<char>,
    slug: Seq<char>,
    title: Seq<char>,
    date: Seq<char>,
) -> Map<Seq<char>, Seq<u8>> {
    let note = project_note(root, slug);
    files::written(
        files,
        project_updates(
            root,
            (note, project_note_text(slug, title, date)),
            project_link_text(slug, title),
            files.dom().contains(note),
            files::text_at(files, paths::under(root, "index.md"@)),
            files::text_at(files, paths::under(root, "map-of-content.md"@)),
        ),
    )
}

/// The note of a project and the two indexes are different files.
proof fn lemma_project_files_apart(root: Seq<char>, slug: Seq<char>)
    ensures
        project_note(root, slug) != paths::under(root, "index.md"@),
        project_note(root, slug) != paths::under(root, "map-of-content.md"@),
        paths::under(root, "index.md"@) != paths::under(root, "map-of-content.md"@),
{
    reveal_strlit("_project.md");
    reveal_strlit("index.md");
    reveal_strlit("map-of-content.md");
    let n = project_note(root, slug);
    let i = paths::under(root, "index.md"@);
    let m = paths::under(root, "map-of-content.md"@);
    assert(n[n.len() - 8] == "_project.md"@[3]);
    assert(i[i.len() - 8] == "index.md"@[0]);
    assert(m[m.len() - 8] == "map-of-content.md"@[9]);
}

/// A heading alone lists no project.
proof fn lemma_heading_lists_nothing(slug: Seq<char>, title: Seq<char>)
    ensures
        !search::occurs("## Projects"@ + "\n\n"@, project_link_text(slug, title)),
{
    reveal_strlit("- [[");
    reveal_strlit("## Projects");
    reveal_strlit("\n\n");
    let s = "## Projects"@ + "\n\n"@;
    let l = project_link_text(slug, title);
    assert(l[0] == '-');
    assert forall|i: int| !search::occurs_at(s, l, i) by {
        if search::occurs_at(s, l, i) {
            assert(s.subrange(i, i + l.len())[0] == s[i]);
            assert(s[i] == '-');
            assert(i < 11 ==> s[i] == "## Projects"@[i]);
            assert(i >= 11 ==> s[i] == "\n\n"@[i - 11]);
        }
    }
}

/// An index that was brought up to date lists the project, and needs no update then.
proof fn lemma_index_listed(
    before: Option<Seq<char>>,
    slug: Seq<char>,
    title: Seq<char>,
)
    ensures
        ({
            let link = project_link_text(slug, title);
            match upserted(before, "## Projects"@, link) {
                Some(b) => search::occurs(b, link) && upserted(Some(b), "## Projects"@, link) is None,
                None => before is Some && search::occurs(before.unwrap(), link),
            }
        }),
{
    lemma_heading_lists_nothing(slug, title);
    listing_twice_is_listing_once(before, "## Projects"@, project_link_text(slug, title));
}

/// Ensuring a project keeps its note where it exists and writes it where it does not,
/// sees to it that both indexes list the project, and changes no other file. Doing it
/// again, on whatever day, changes nothing. Indexes that exist must be text.
pub proof fn project_is_ensured_once(
    files: Map<Seq<char>, Seq<u8>>,
    root: Seq<char>,
    slug: Seq<char>,
    title: Seq<char>,
    date: Seq<char>,
    later: Seq<char>,
)
    requires
        files::readable(files, paths::under(root, "index.md"@)),
        files::readable(files, paths::under(root, "map-of-content.md"@)),
    ensures
        ({
            let after = set_up(files, root, slug, title, date);
            let note = project_note(root, slug);
            let index = paths::under(root, "index.md"@);
            let map = paths::under(root, "map-of-content.md"@);
            let link = project_link_text(slug, title);
            &&& after.dom().contains(note)
            &&& after[note] == if files.dom().contains(note) {
                files[note]
            } else {
                encode_utf8(project_note_text(slug, title, date))
            }
            &&& after.dom().contains(index) && files::readable(after, index) && search::occurs(
                files::text_at(after, index).unwrap(),
                link,
            )
            &&& after.dom().contains(map) && files::readable(after, map) && search::occurs(
                files::text_at(after, map).unwrap(),
                link,
            )
            &&& forall|p: Seq<char>|
                p != note && p != index && p != map ==> (#[trigger] after.dom().contains(p)
                    == files.dom().contains(p)) && (files.dom().contains(p) ==> after[p] == files[p])
            &&& set_up(after, root, slug, title, later) == after
        }),
{
    let note = project_note(root, slug);
    let index = paths::under(root, "index.md"@);
    let map = paths::under(root, "map-of-content.md"@);
    let link = project_link_text(slug, title);
    let a = if files.dom().contains(note) {
        Seq::empty()
    } else {
        seq![(note, project_note_text(slug, title, date))]
    };
    let ti = files::text_at(files, index);
    let tm = files::text_at(files, map);
    let ui = upserted(ti, "## Projects"@, link);
    let um = upserted(tm, "## Projects"@, link);
    let after = set_up(files, root, slug, title, date);
    lemma_project_files_apart(root, slug);
    lemma_index_listed(ti, slug, title);
    lemma_index_listed(tm, slug, title);
    let f1 = files::written(files, a);
    let f2 = files::written(files, a + update_of(index, ui));
    assert(f1 == if files.dom().contains(note) {
        files
    } else {
        files.insert(note, encode_utf8(project_note_text(slug, title, date)))
    }) by {
        let none = Seq::<(Seq<char>, Seq<char>)>::empty();
        let body = Some(project_note_text(slug, title, date));
        lemma_written_update(files, none, note, body);
        assert(none + update_of(note, body) == update_of(note, body));
        assert(files::written(files, none) == files);
    }
    lemma_written_update(files, a, index, ui);
    lemma_written_update(files, a + update_of(index, ui), map, um);
    match ui {
        Some(b) => {
            files::lemma_written_text(f1, index, b);
        },
        None => {},
    }
    match um {
        Some(b) => {
            files::lemma_written_text(f2, map, b);
        },
        None => {},
    }
    assert(upserted(files::text_at(after, index), "## Projects"@, link) is None);
    assert(upserted(files::text_at(after, map), "## Projects"@, link) is None);
    let none = Seq::<(Seq<char>, Seq<char>)>::empty();
    assert(none + none + none == none);
}

/// Writing one more file, if it has a new text.
proof fn lemma_written_update(
    files: Map<Seq<char>, Seq<u8>>,
    writes: Seq<(Seq<char>, Seq<char>)>,
    path: Seq<char>,
    body: Option<Seq<char>>,
)
    ensures
        files::written(files, writes + update_of(path, body)) == match body {
            Some(b) => files::written(files, writes).insert(path, encode_utf8(b)),
            None => files::written(files, writes),
        },
{
    match body {
        Some(b) => {
            let all = writes + seq![(path, b)];
            assert(all.drop_last() == writes);
            assert(all.last() == (path, b));
        },
        None => {
            assert(writes + update_of(path, body) == writes);
        },
    }
}

/// The line and the note of a project name it by its slug and by its title, and its note
/// tells when it was made.
pub proof fn projects_are_named(slug: Seq<char>, title: Seq<char>, date: Seq<char>)
    ensures
        search::occurs(project_link_text(slug, title), slug),
        search::occurs(project_link_text(slug, title), title),
        text::begins(project_link_text(slug, title), "- [["@ + slug + "/_project|"@),
        text::ends(project_link_text(slug, title), "/_project|"@ + title + "]]"@),
        search::occurs(project_note_text(slug, title, date), slug),
        search::occurs(project_note_text(slug, title, date), title),
        search::occurs(project_note_text(slug, title, date), date),
        text::begins(project_note_text(slug, title, date), "---\ntitle: \""@ + title + "\"\n"@),
        search::occurs(project_note_text(slug, title, date), "slug: \""@ + slug + "\"\n"@),
        search::occurs(project_note_text(slug, title, date), "created: "@ + date + "\n"@),
        search::occurs(project_note_text(slug, title, date), "\n# "@ + title + "\n\n## Sources\n"@),
{
    let l = project_link_text(slug, title);
    search::lemma_has_middle("- [["@, slug, "/_project|"@ + title + "]]"@);
    assert(l == "- [["@ + slug + ("/_project|"@ + title + "]]"@));
    search::lemma_has_middle("- [["@ + slug + "/_project|"@, title, "]]"@);
    let first = "- [["@ + slug + "/_project|"@;
    assert(l.take(first.len() as int) == first);
    let last = "/_project|"@ + title + "]]"@;
    assert(l.skip(l.len() - last.len()) == last);
    lemma_project_note_lines(slug, title, date);
    let n = project_note_text(slug, title, date);
    let end = "\n---\n\n# "@ + title + "\n\n## Sources\n\n## Notes\n\n"@;
    let rest = "\"\nslug: \""@ + slug + "\"\ncreated: "@ + date + end;
    search::lemma_has_middle("---\ntitle: \""@, title, rest);
    assert(n == "---\ntitle: \""@ + title + rest);
    let head = "---\ntitle: \""@ + title + "\"\nslug: \""@;
    search::lemma_has_middle(head, slug, "\"\ncreated: "@ + date + end);
    assert(n == head + slug + ("\"\ncreated: "@ + date + end));
    search::lemma_has_middle(head + slug + "\"\ncreated: "@, date, end);
    assert(n == head + slug + "\"\ncreated: "@ + date + end);
}

/// A note whose text has what is searched for is found, wherever it stands in the text and
/// whatever the case of its letters: the note is added behind what was found before.
pub proof fn notes_are_found_by_their_words(
    found: Seq<(Seq<char>, Seq<char>)>,
    path: Seq<char>,
    before: Seq<char>,
    words: Seq<char>,
    after: Seq<char>,
    query: Seq<char>,
)
    requires
        text::lowered(words) == text::lowered(query),
    ensures
        ({
            let f = with_note(found, (path, before + words + after), search_key(query));
            &&& f.len() == found.len() + 1
            &&& f.drop_last() == found
            &&& f.last().0 == path
        }),
{
    let body = before + words + after;
    let q = text::lowered(query);
    search::lemma_has_middle(text::lowered(before), q, text::lowered(after));
    assert(text::lowered(body) == text::lowered(before) + q + text::lowered(after));
    let f = with_note(found, (path, body), q);
    assert(f.drop_last() == found);
}

/// A note that does not have what is searched for, in whatever case, is not found.
pub proof fn other_notes_are_not_found(
    found: Seq<(Seq<char>, Seq<char>)>,
    path: Seq<char>,
    body: Seq<char>,
    query: Seq<char>,
)
    requires
        forall|i: int|
            0 <= i && i + query.len() <= body.len() ==> text::lowered(
                #[trigger] body.subrange(i, i + query.len()),
            ) != text::lowered(query),
    ensures
        with_note(found, (path, body), search_key(query)) == found,
{
    let q = text::lowered(query);
    let l = text::lowered(body);
    if search::occurs(l, q) {
        let i = choose|i: int| search::occurs_at(l, q, i);
        let part = body.subrange(i, i + query.len());
        assert(text::lowered(part) == l.subrange(i, i + q.len()));
    }
}

/// A place between two characters splits the text.
proof fn lemma_boundary(body: Seq<char>, a: int) -> (k: int)
    requires
        is_char_boundary(encode_utf8(body), a),
        0 <= a <= encode_utf8(body).len(),
    ensures
        0 <= k <= body.len(),
        encode_utf8(body.take(k)) == encode_utf8(body).take(a),
        encode_utf8(body.skip(k)) == encode_utf8(body).skip(a),
{
    let e = encode_utf8(body);
    let n = e.len() as int;
    encode_utf8_valid_utf8(body);
    encode_utf8_decode_utf8(body);
    decode_utf8_split(e, a);
    valid_utf8_split(e, a);
    let p = decode_utf8(e.subrange(0, a));
    let q = decode_utf8(e.subrange(a, n));
    decode_utf8_encode_utf8(e.subrange(0, a));
    decode_utf8_encode_utf8(e.subrange(a, n));
    assert(body == p + q);
    assert(body.take(p.len() as int) == p);
    assert(body.skip(p.len() as int) == q);
    assert(e.subrange(0, a) == e.take(a));
    assert(e.subrange(a, n) == e.skip(a));
    p.len() as int
}

/// Every character takes a byte at least.
proof fn lemma_wide(s: Seq<char>)
    ensures
        encode_utf8(s).len() >= s.len(),
    decreases s.len(),
{
    if s.len() > 0 {
        lemma_wide(s.drop_first());
    }
}

/// More characters take more bytes.
proof fn lemma_wider(s: Seq<char>, x: int, y: int)
    requires
        0 <= x <= y <= s.len(),
    ensures
        encode_utf8(s.take(y)).len() >= encode_utf8(s.take(x)).len() + (y - x),
{
    let m = s.subrange(x, y);
    bytes::lemma_encode_add(s.take(x), m);
    lemma_wide(m);
    assert(s.take(x) + m == s.take(y));
}

/// What the bytes to show stand for: some characters around the words.
proof fn lemma_shown(body: Seq<char>, q: Seq<char>, k: int) -> (r: (int, int))
    requires
        search::found(text::lowered(body), q) == Some(k),
        snippet_fits(body, q),
    ensures
        0 <= r.0 <= k,
        k - r.0 <= 40,
        k + q.len() <= r.1 <= body.len(),
        ({
            let (a, b) = snippet_span(body, q).unwrap();
            decode_utf8(encode_utf8(body).subrange(a, b)) == body.subrange(r.0, r.1)
        }),
{
    let l = text::lowered(body);
    let e = encode_utf8(body);
    let (a, b) = snippet_span(body, q).unwrap();
    let m = q.len() as int;
    search::lemma_found(l, q);
    lemma_span(body, q, k);
    assert(l.take(k) == text::lowered(body.take(k)));
    lemma_lowered_width(body.take(k));
    let mid = body.subrange(k, k + m);
    assert(text::lowered(mid) == l.subrange(k, k + m));
    lemma_lowered_width(mid);
    bytes::lemma_encode_add(body.take(k), mid);
    assert(body.take(k) + mid == body.take(k + m));
    let i = encode_utf8(body.take(k)).len() as int;
    assert(encode_utf8(body.take(k + m)).len() == i + encode_utf8(q).len());
    let x = lemma_boundary(body, a);
    let y = lemma_boundary(body, b);
    if x > k {
        lemma_wider(body, k, x);
        assert(false);
    }
    lemma_wider(body, x, k);
    if y < k + m {
        lemma_wider(body, y, k + m);
        assert(false);
    }
    let part = body.subrange(x, y);
    bytes::lemma_encode_add(body.take(x), part);
    assert(body.take(x) + part == body.take(y));
    assert(encode_utf8(part) == e.subrange(a, b)) by {
        let t = e.take(b);
        assert(t == e.take(a) + encode_utf8(part));
        assert(t.skip(a) == encode_utf8(part));
        assert(t.skip(a) == e.subrange(a, b));
    }
    encode_utf8_decode_utf8(part);
    (x, y)
}

/// `s` is what stands in the text from position `x` on, with spaces for line ends.
pub open spec fn shows_from(s: Seq<char>, body: Seq<char>, x: int) -> bool {
    &&& 0 <= x && x + s.len() <= body.len()
    &&& forall|i: int|
        0 <= i < s.len() ==> #[trigger] s[i] == if body[x + i] == '\n' {
            ' '
        } else {
            body[x + i]
        }
}

/// What is shown of a note that was found shows what was searched for, as long as it is
/// one line and leaves room for what stands before it.
pub proof fn snippets_show_the_words(body: Seq<char>, q: Seq<char>, max: int)
    requires
        mentions(body, q),
        snippet_fits(body, q),
        q.len() + 40 <= max,
        forall|i: int| 0 <= i < q.len() ==> #[trigger] q[i] != '\n',
    ensures
        search::occurs(text::lowered(snippet_text(body, q, max)), q),
        snippet_text(body, q, max).len() <= max,
        forall|i: int|
            0 <= i < snippet_text(body, q, max).len() ==> #[trigger] snippet_text(body, q, max)[i]
                != '\n',
        exists|x: int| #[trigger] shows_from(snippet_text(body, q, max), body, x),
{
    let l = text::lowered(body);
    search::lemma_found(l, q);
    let k = search::found(l, q).unwrap();
    let (x, y) = lemma_shown(body, q, k);
    let part = body.subrange(x, y);
    let c = text::clipped(part, max);
    let s = snippet_text(body, q, max);
    lemma_one_line(c);
    let d = k - x;
    let m = q.len() as int;
    let ls = text::lowered(s);
    assert(shows_from(s, body, x)) by {
        assert forall|i: int| 0 <= i < s.len() implies #[trigger] s[i] == if body[x + i] == '\n' {
            ' '
        } else {
            body[x + i]
        } by {
            assert(c[i] == part[i]);
            assert(part[i] == body[x + i]);
        }
    }
    assert forall|j: int| 0 <= j < m implies ls[d + j] == #[trigger] q[j] by {
        assert(l.subrange(k, k + m)[j] == l[k + j]);
        assert(part[d + j] == body[k + j]);
        assert(c[d + j] == part[d + j]);
        assert(text::lower_char(body[k + j]) == q[j]);
        assert(body[k + j] != '\n');
    }
    assert(ls.subrange(d, d + m) == q);
    assert(search::occurs_at(ls, q, d));
}

/// A text with its line ends turned into spaces has as many characters as before, and the
/// others stay.
proof fn lemma_one_line(s: Seq<char>)
    ensures
        search::replaced(s, "\n"@, " "@).len() == s.len(),
        forall|i: int|
            0 <= i < s.len() ==> #[trigger] search::replaced(s, "\n"@, " "@)[i] == if s[i] == '\n' {
                ' '
            } else {
                s[i]
            },
{
    reveal_strlit("\n");
    reveal_strlit(" ");
    assert("\n"@ == seq!['\n']);
    assert(" "@ == seq![' ']);
    search::lemma_replaced_char(s, '\n', " "@);
    lemma_spelled_singly(s);
}

proof fn lemma_spelled_singly(s: Seq<char>)
    ensures
        ({
            let r = search::spelled(s, search::swap_char('\n', seq![' ']));
            &&& r.len() == s.len()
            &&& forall|i: int|
                0 <= i < s.len() ==> #[trigger] r[i] == if s[i] == '\n' {
                    ' '
                } else {
                    s[i]
                }
        }),
    decreases s.len(),
{
    if s.len() > 0 {
        lemma_spelled_singly(s.drop_last());
    }
}

/// A project is listed right below the line of the heading of the projects, on a line of its
/// own, and the rest stays as it was.
pub proof fn projects_stand_below_their_heading(
    before: Seq<char>,
    heading: Seq<char>,
    tail: Seq<char>,
    after: Seq<char>,
    bullet: Seq<char>,
)
    requires
        forall|i: int| 0 <= i < tail.len() ==> #[trigger] tail[i] != '\n',
        search::found(before + heading + tail + seq!['\n'] + after, heading) == Some(
            before.len() as int,
        ),
        !search::occurs(before + heading + tail + seq!['\n'] + after, bullet),
        !search::occurs(before + heading + tail + seq!['\n'] + after, "(none yet)\n"@),
    ensures
        upserted(Some(before + heading + tail + seq!['\n'] + after), heading, bullet) == Some(
            before + heading + tail + seq!['\n'] + bullet + seq!['\n'] + after,
        ),
{
    assert("\n"@ == seq!['\n']) by {
        reveal_strlit("\n");
    }
    let body = before + heading + tail + seq!['\n'] + after;
    search::lemma_found(body, "(none yet)\n"@);
    assert(without_placeholder(Some(body), heading) == body);
    let at = before.len() as int + heading.len();
    let n = tail.len() as int;
    let rest = body.skip(at);
    assert forall|k: int| 0 <= k < n implies #[trigger] rest[k] != '\n' by {
        assert(rest[k] == tail[k]);
    }
    assert(rest[n] == '\n');
    split::lemma_first_of_is(rest, '\n', n);
    assert(below_heading(body, at) == at + n + 1);
    assert(body.take(at + n + 1) == before + heading + tail + seq!['\n']);
    assert(body.skip(at + n + 1) == after);
    assert(before + heading + tail + seq!['\n'] + (bullet + seq!['\n']) + after == before + heading
        + tail + seq!['\n'] + bullet + seq!['\n'] + after);
}

/// The placeholder of an empty list gives way to the first project.
pub proof fn the_placeholder_gives_way(
    before: Seq<char>,
    after: Seq<char>,
    heading: Seq<char>,
    bullet: Seq<char>,
)
    requires
        search::found(before + "(none yet)\n"@ + after, "(none yet)\n"@) == Some(
            before.len() as int,
        ),
        !search::occurs(after, "(none yet)\n"@),
    ensures
        without_placeholder(Some(before + "(none yet)\n"@ + after), heading) == before + after,
        upserted(Some(before + "(none yet)\n"@ + after), heading, bullet) matches Some(b)
            ==> !search::occurs(before + "(none yet)\n"@ + after, bullet) && b == with_bullet(
            before + after,
            heading,
            bullet,
        ),
{
    reveal_strlit("(none yet)\n");
    reveal_strlit("");
    let p = "(none yet)\n"@;
    let body = before + p + after;
    assert(body.take(before.len() as int) == before);
    assert(body.skip(before.len() as int + p.len()) == after);
    search::lemma_found(after, p);
    assert(search::replaced(after, p, ""@) == after);
    assert(before + ""@ + after == before + after);
}

/// A list without the heading gets it at its end, with the project below it.
pub proof fn projects_get_a_heading(body: Seq<char>, heading: Seq<char>, bullet: Seq<char>)
    requires
        !search::occurs(body, heading),
        !search::occurs(body, bullet),
        !search::occurs(body, "(none yet)\n"@),
    ensures
        upserted(Some(body), heading, bullet) == Some(
            body + "\n"@ + heading + "\n\n"@ + bullet + "\n"@,
        ),
{
    search::lemma_found(body, "(none yet)\n"@);
    search::lemma_found(body, heading);
    assert(body + ("\n"@ + heading + "\n\n"@ + bullet + "\n"@) == body + "\n"@ + heading + "\n\n"@
        + bullet + "\n"@);
}

/// The entry is a directory of this name that is not hidden.
pub open spec fn shows_project(e: Entry, name: Seq<char>) -> bool {
    e.is_dir && e.name@ == name && (name.len() == 0 || name[0] != '.')
}

/// The projects are the directories that are not hidden, all of them and nothing else.
pub proof fn projects_are_visible_directories(entries: Seq<Entry>, name: Seq<char>)
    ensures
        project_names(entries).contains(name) <==> exists|i: int|
            0 <= i < entries.len() && shows_project(#[trigger] entries[i], name),
        project_names(entries).len() <= entries.len(),
    decreases entries.len(),
{
    reveal_strlit(".");
    if entries.len() > 0 {
        let d = entries.drop_last();
        let e = entries.last();
        let all = project_names(entries);
        let rest = project_names(d);
        projects_are_visible_directories(d, name);
        assert(text::begins(e.name@, "."@) <==> e.name@.len() > 0 && e.name@[0] == '.') by {
            if e.name@.len() > 0 {
                assert(e.name@.take(1)[0] == e.name@[0]);
                if e.name@[0] == '.' {
                    assert(e.name@.take(1) == "."@);
                }
            }
        }
        if rest.contains(name) {
            let k = choose|k: int| 0 <= k < rest.len() && rest[k] == name;
            assert(all[k] == name);
            let i = choose|i: int| 0 <= i < d.len() && shows_project(#[trigger] d[i], name);
            assert(shows_project(entries[i], name));
        }
        if shows_project(e, name) {
            assert(all[all.len() - 1] == name);
            assert(shows_project(entries[entries.len() - 1], name));
        }
        if all.contains(name) {
            let k = choose|k: int| 0 <= k < all.len() && all[k] == name;
            if k < rest.len() {
                assert(rest[k] == name);
            } else {
                assert(shows_project(entries[entries.len() - 1], name));
            }
        }
        if exists|i: int| 0 <= i < entries.len() && shows_project(#[trigger] entries[i], name) {
            let i = choose|i: int| 0 <= i < entries.len() && shows_project(#[trigger] entries[i], name);
            if i < d.len() {
                assert(shows_project(d[i], name));
            }
        }
    }
}

/// A finished source keeps its name behind the job, and lies in `raw/processed`.
pub proof fn finished_sources_keep_their_name(
    root: Seq<char>,
    dir: Seq<char>,
    name: Seq<char>,
    job_id: Seq<char>,
)
    requires
        paths::plain_name(name),
        forall|i: int| 0 <= i < job_id.len() ==> #[trigger] job_id[i] != '/',
    ensures
        ({
            let to = processed_path(root, paths::under(dir, name), job_id);
            let processed = paths::under(paths::under(root, "raw"@), "processed"@);
            &&& to == paths::under(processed, job_id + "_"@ + name)
            &&& paths::name_of(to) == Some(job_id + "_"@ + name)
            &&& paths::inside(to, processed)
        }),
{
    reveal_strlit("_");
    paths::lemma_name_under(dir, name);
    let n = job_id + "_"@ + name;
    let m = job_id.len() as int;
    assert forall|k: int| 0 <= k < n.len() implies #[trigger] n[k] != '/' by {
        if k < m {
            assert(n[k] == job_id[k]);
        } else if k > m {
            assert(n[k] == name[k - m - 1]);
        }
    }
    assert(n[m] == '_');
    let processed = two_below(root, "raw"@, "processed"@);
    paths::lemma_name_under(processed, n);
    paths::lemma_components_under(processed, n);
}

/// Markdown notes are known by their extension, whatever its case.
pub proof fn notes_are_known_by_their_extension(base: Seq<char>, stem: Seq<char>, ext: Seq<char>)
    requires
        stem.len() > 0,
        forall|i: int| 0 <= i < stem.len() ==> #[trigger] stem[i] != '/',
        ext.len() > 0,
        forall|i: int| 0 <= i < ext.len() ==> (#[trigger] ext[i]) != '/' && ext[i] != '.',
    ensures
        is_note(paths::under(base, stem + seq!['.'] + ext)) <==> text::lowered(ext) == "md"@,
{
    paths::names_have_stem_and_extension(base, stem, ext);
}

/// A vault has a place for what comes in, for what was worked off, for extracts and for
/// projects, and its lists are the two files at its top.
pub proof fn vaults_have_their_places(root: Seq<char>)
    ensures
        layout_dirs(root).contains(paths::under(paths::under(root, "raw"@), "incoming"@)),
        layout_dirs(root).contains(paths::under(paths::under(root, "raw"@), "processed"@)),
        layout_dirs(root).contains(paths::under(paths::under(root, "raw"@), "extracts"@)),
        layout_dirs(root).contains(paths::under(paths::under(root, "wiki"@), "projects"@)),
        forall|i: int|
            0 <= i < layout_dirs(root).len() ==> paths::inside(#[trigger] layout_dirs(root)[i], root),
        exists|i: int|
            0 <= i < layout_seeds(root).len() && (#[trigger] layout_seeds(root)[i]).0 == paths::under(
                root,
                "index.md"@,
            ) && search::occurs(layout_seeds(root)[i].1, "## Projects"@),
        exists|i: int|
            0 <= i < layout_seeds(root).len() && (#[trigger] layout_seeds(root)[i]).0 == paths::under(
                root,
                "map-of-content.md"@,
            ) && search::occurs(layout_seeds(root)[i].1, "## Projects"@),
{
    let d = layout_dirs(root);
    assert(d[0] == paths::under(paths::under(root, "raw"@), "incoming"@));
    assert(d[1] == paths::under(paths::under(root, "raw"@), "processed"@));
    assert(d[2] == paths::under(paths::under(root, "raw"@), "extracts"@));
    assert(d[3] == paths::under(paths::under(root, "wiki"@), "projects"@));
    lemma_places_inside(root);
    let s = layout_seeds(root);
    assert(s[0].0 == paths::under(root, "index.md"@));
    assert(s[1].0 == paths::under(root, "map-of-content.md"@));
    lemma_seeds_list_projects();
}

proof fn lemma_places_inside(root: Seq<char>)
    ensures
        forall|i: int|
            0 <= i < layout_dirs(root).len() ==> paths::inside(#[trigger] layout_dirs(root)[i], root),
{
    assert(paths::plain_name("raw"@)) by {
        reveal_strlit("raw");
        assert("raw"@.len() == 3);
    }
    assert(paths::plain_name("wiki"@)) by {
        reveal_strlit("wiki");
        assert("wiki"@.len() == 4);
    }
    assert(paths::plain_name("incoming"@)) by {
        reveal_strlit("incoming");
        assert("incoming"@.len() == 8);
    }
    assert(paths::plain_name("processed"@)) by {
        reveal_strlit("processed");
        assert("processed"@.len() == 9);
    }
    assert(paths::plain_name("extracts"@)) by {
        reveal_strlit("extracts");
        assert("extracts"@.len() == 8);
    }
    assert(paths::plain_name("projects"@)) by {
        reveal_strlit("projects");
        assert("projects"@.len() == 8);
    }
    lemma_two_below_inside(root, "raw"@, "incoming"@);
    lemma_two_below_inside(root, "raw"@, "processed"@);
    lemma_two_below_inside(root, "raw"@, "extracts"@);
    lemma_two_below_inside(root, "wiki"@, "projects"@);
    paths::lemma_components_under(root, "wiki"@);
}

proof fn lemma_seeds_list_projects()
    ensures
        search::occurs(INDEX_SEED@, "## Projects"@),
        search::occurs(MAP_SEED@, "## Projects"@),
{
    reveal_strlit("## Projects");
    reveal_strlit(
        "# Knowledge index\n\nThis file lists research projects. The ingest tool updates this file.\n\n## Projects\n\n(none yet)\n",
    );
    reveal_strlit(
        "# Map of content\n\nHigh-level map of the vault. The ingest tool updates project links here.\n\n## Projects\n\n(none yet)\n",
    );
    assert(INDEX_SEED@.subrange(90, 101) == "## Projects"@);
    assert(search::occurs_at(INDEX_SEED@, "## Projects"@, 90));
    assert(MAP_SEED@.subrange(92, 103) == "## Projects"@);
    assert(search::occurs_at(MAP_SEED@, "## Projects"@, 92));
}

/// Of plain text, what is shown starts forty characters before the first place of what was
/// searched for, or at the beginning, and goes on for eighty behind it, or to the end, as far
/// as there is room. It can always be shown.
pub proof fn plain_snippets_show_the_surroundings(body: Seq<char>, q: Seq<char>, k: int, max: int)
    requires
        is_ascii_chars(body),
        search::found(text::lowered(body), q) == Some(k),
        0 <= max,
    ensures
        snippet_fits(body, q),
        ({
            let a = if k >= 40 {
                k - 40
            } else {
                0
            };
            let b = if k + q.len() + 80 < body.len() {
                k + q.len() + 80
            } else {
                body.len() as int
            };
            &&& b - a <= max ==> snippet_text(body, q, max).len() == b - a
            &&& b - a > max ==> snippet_text(body, q, max).len() == max
            &&& shows_from(snippet_text(body, q, max), body, a)
        }),
{
    let l = text::lowered(body);
    let e = encode_utf8(body);
    let m = q.len() as int;
    search::lemma_found(l, q);
    assert(is_ascii_chars(l)) by {
        assert forall|i: int| 0 <= i < l.len() implies '\0' <= #[trigger] l[i] <= '\u{7f}' by {
            assert('\0' <= body[i] <= '\u{7f}');
        }
    }
    assert(is_ascii_chars(l.take(k))) by {
        assert forall|i: int| 0 <= i < k implies '\0' <= #[trigger] l.take(k)[i] <= '\u{7f}' by {
            assert(l.take(k)[i] == l[i]);
        }
    }
    assert(is_ascii_chars(q)) by {
        assert forall|i: int| 0 <= i < q.len() implies '\0' <= #[trigger] q[i] <= '\u{7f}' by {
            assert(l.subrange(k, k + m)[i] == l[k + i]);
        }
    }
    is_ascii_chars_encode_utf8(body);
    is_ascii_chars_encode_utf8(l.take(k));
    is_ascii_chars_encode_utf8(q);
    let (a, b) = snippet_span(body, q).unwrap();
    lemma_span(body, q, k);
    assert(e.len() == body.len());
    encode_utf8_valid_utf8(body);
    lemma_plain_boundary(body, a);
    lemma_plain_boundary(body, b);
    let part = body.subrange(a, b);
    assert(is_ascii_chars(part)) by {
        assert forall|i: int| 0 <= i < part.len() implies '\0' <= #[trigger] part[i] <= '\u{7f}' by {
            assert(part[i] == body[a + i]);
        }
    }
    is_ascii_chars_encode_utf8(part);
    assert(encode_utf8(part) == e.subrange(a, b));
    encode_utf8_decode_utf8(part);
    let c = text::clipped(part, max);
    lemma_one_line(c);
    let s = snippet_text(body, q, max);
    assert forall|i: int| 0 <= i < s.len() implies #[trigger] s[i] == if body[a + i] == '\n' {
        ' '
    } else {
        body[a + i]
    } by {
        assert(c[i] == part[i]);
        assert(part[i] == body[a + i]);
    }
}

/// Plain text can be cut anywhere.
proof fn lemma_plain_boundary(body: Seq<char>, a: int)
    requires
        is_ascii_chars(body),
        0 <= a <= body.len(),
    ensures
        is_char_boundary(encode_utf8(body), a),
{
    let e = encode_utf8(body);
    encode_utf8_valid_utf8(body);
    is_ascii_chars_encode_utf8(body);
    is_char_boundary_start_end_of_seq(e);
    if a < e.len() {
        is_char_boundary_iff_not_is_continuation_byte(e, a);
        assert('\0' <= body[a] <= '\u{7f}');
        assert(e[a] == body[a] as u8);
    }
}

proof fn lemma_project_note_lines(slug: Seq<char>, title: Seq<char>, date: Seq<char>)
    ensures
        text::begins(project_note_text(slug, title, date), "---\ntitle: \""@ + title + "\"\n"@),
        search::occurs(project_note_text(slug, title, date), "slug: \""@ + slug + "\"\n"@),
        search::occurs(project_note_text(slug, title, date), "created: "@ + date + "\n"@),
        search::occurs(project_note_text(slug, title, date), "\n# "@ + title + "\n\n## Sources\n"@),
{
    assert("\"\nslug: \""@ == "\"\n"@ + "slug: \""@) by {
        reveal_strlit("\"\nslug: \"");
        reveal_strlit("\"\n");
        reveal_strlit("slug: \"");
    }
    assert("\"\ncreated: "@ == "\"\n"@ + "created: "@) by {
        reveal_strlit("\"\ncreated: ");
        reveal_strlit("\"\n");
        reveal_strlit("created: ");
    }
    assert("\n---\n\n# "@ == "\n"@ + "---\n"@ + "\n# "@) by {
        reveal_strlit("\n---\n\n# ");
        reveal_strlit("\n");
        reveal_strlit("---\n");
        reveal_strlit("\n# ");
    }
    assert("\n\n## Sources\n\n## Notes\n\n"@ == "\n\n## Sources\n"@ + "\n## Notes\n\n"@) by {
        reveal_strlit("\n\n## Sources\n\n## Notes\n\n");
        reveal_strlit("\n\n## Sources\n");
        reveal_strlit("\n## Notes\n\n");
    }
    lemma_note_lines(
        "---\ntitle: \""@,
        title,
        "\"\n"@,
        "slug: \""@,
        slug,
        "created: "@,
        date,
        "\n"@,
        "---\n"@,
        "\n# "@,
        "\n\n## Sources\n"@,
        "\n## Notes\n\n"@,
    );
}

proof fn lemma_note_lines(
    h: Seq<char>,
    t: Seq<char>,
    q: Seq<char>,
    k: Seq<char>,
    s: Seq<char>,
    c: Seq<char>,
    d: Seq<char>,
    nl: Seq<char>,
    dash: Seq<char>,
    y: Seq<char>,
    w: Seq<char>,
    e: Seq<char>,
)
    ensures
        ({
            let n = h + t + (q + k) + s + (q + c) + d + (nl + dash + y) + t + (w + e);
            &&& text::begins(n, h + t + q)
            &&& search::occurs(n, k + s + q)
            &&& search::occurs(n, c + d + nl)
            &&& search::occurs(n, y + t + w)
        }),
{
    let p1 = h + t + (q + k);
    let p2 = p1 + s;
    let p3 = p2 + (q + c);
    let p4 = p3 + d;
    let p5 = p4 + (nl + dash + y);
    let p6 = p5 + t;
    let n = p6 + (w + e);
    assert(text::begins(p1, h + t + q)) by {
        assert(p1.take((h + t + q).len() as int) == h + t + q);
    }
    assert(search::occurs(p3, k + s + q)) by {
        search::lemma_has_middle(h + t + q, k + s + q, c);
        assert(p3 == (h + t + q) + (k + s + q) + c);
    }
    assert(search::occurs(p5, c + d + nl)) by {
        search::lemma_has_middle(p2 + q, c + d + nl, dash + y);
        assert(p5 == (p2 + q) + (c + d + nl) + (dash + y));
    }
    assert(search::occurs(n, y + t + w)) by {
        search::lemma_has_middle(p4 + nl + dash, y + t + w, e);
        assert(n == (p4 + nl + dash) + (y + t + w) + e);
    }
    text::lemma_begins_add(p1, s);
    text::lemma_begins_add(p2, q + c);
    text::lemma_begins_add(p3, d);
    text::lemma_begins_add(p4, nl + dash + y);
    text::lemma_begins_add(p5, t);
    text::lemma_begins_add(p6, w + e);
    search::lemma_occurs_add(p3, d);
    search::lemma_occurs_add(p4, nl + dash + y);
    search::lemma_occurs_add(p5, t);
    search::lemma_occurs_add(p6, w + e);
}

/// A project lies in a directory of its name among the projects, its root note lies there,
/// and the lists link to it.
pub proof fn projects_lie_under_their_name(
    v: VaultPaths,
    p: ProjectPlan,
    slug: Seq<char>,
    title: Seq<char>,
    now: Timestamp,
)
    requires
        v.is_plan(p, slug, title, now),
    ensures
        p.dir@ == paths::under(
            paths::under(paths::under(v.root@, "wiki"@), "projects"@),
            slug,
        ),
        p.note_path@ == paths::under(p.dir@, "_project.md"@),
        text::begins(p.link@, "- [["@ + slug + "/_project|"@),
        text::ends(p.link@, "/_project|"@ + title + "]]"@),
        text::begins(p.note_body@, "---\ntitle: \""@ + title + "\"\n"@),
        search::occurs(p.note_body@, "slug: \""@ + slug + "\"\n"@),
        search::occurs(p.note_body@, "created: "@ + now.date_text() + "\n"@),
{
    projects_are_named(slug, title, now.date_text());
}

/// Of the files of a vault exactly those are written that do not exist yet, each with the
/// text that belongs to it.
pub proof fn existing_files_are_kept(wanted: Seq<(Seq<char>, Seq<char>)>, existing: Set<Seq<char>>)
    ensures
        forall|i: int|
            0 <= i < wanted.len() && !existing.contains((#[trigger] wanted[i]).0) ==> lacking(
                wanted,
                existing,
            ).contains(wanted[i]),
        forall|i: int|
            0 <= i < lacking(wanted, existing).len() ==> wanted.contains(
                #[trigger] lacking(wanted, existing)[i],
            ) && !existing.contains(lacking(wanted, existing)[i].0),
    decreases wanted.len(),
{
    if wanted.len() > 0 {
        let d = wanted.drop_last();
        existing_files_are_kept(d, existing);
        let l = lacking(wanted, existing);
        let r = lacking(d, existing);
        assert forall|i: int|
            0 <= i < wanted.len() && !existing.contains((#[trigger] wanted[i]).0) implies l.contains(
            wanted[i],
        ) by {
            if i < d.len() {
                assert(d[i] == wanted[i]);
                let k = choose|k: int| 0 <= k < r.len() && r[k] == d[i];
                assert(l[k] == wanted[i]);
            } else {
                assert(l[l.len() - 1] == wanted[i]);
            }
        }
        assert forall|i: int| 0 <= i < l.len() implies wanted.contains(#[trigger] l[i])
            && !existing.contains(l[i].0) by {
            if i < r.len() {
                assert(l[i] == r[i]);
                let k = choose|k: int| 0 <= k < d.len() && d[k] == r[i];
                assert(wanted[k] == l[i]);
            } else {
                assert(l[i] == wanted[wanted.len() - 1]);
            }
        }
    }
}

/// A note that was found is shown with up to a hundred and sixty characters: of plain text,
/// those from forty before the words to eighty behind them.
pub proof fn found_notes_are_shown(
    found: Seq<(Seq<char>, Seq<char>)>,
    path: Seq<char>,
    body: Seq<char>,
    q: Seq<char>,
    k: int,
)
    requires
        is_ascii_chars(body),
        search::found(text::lowered(body), q) == Some(k),
    ensures
        ({
            let shown = with_note(found, (path, body), q).last().1;
            let a = if k >= 40 {
                k - 40
            } else {
                0
            };
            let b = if k + q.len() + 80 < body.len() {
                k + q.len() + 80
            } else {
                body.len() as int
            };
            &&& shows_from(shown, body, a)
            &&& b - a <= 160 ==> shown.len() == b - a
            &&& b - a > 160 ==> shown.len() == 160
        }),
{
    search::lemma_found(text::lowered(body), q);
    plain_snippets_show_the_surroundings(body, q, k, 160);
}

} // verus!
