//! Names of the files that are dropped into the vault.

use vstd::prelude::*;
use vstd::string::*;

use crate::clock;
use crate::clock::Timestamp;
use crate::extract::glue;
use crate::ids;
use crate::paths;
use crate::text;
use crate::vault;
use crate::vault::VaultPaths;

verus! {

/// Letters and digits as small ones, everything else as a dash.
pub open spec fn dash_char(c: char) -> char {
    if text::is_alnum(c) {
        text::lower_char(c)
    } else {
        '-'
    }
}

/// `s` as a part of a file name.
pub open spec fn sanitized(s: Seq<char>) -> Seq<char> {
    let t = text::stripped(Seq::new(s.len(), |i: int| dash_char(s[i])), text::equal_to('-'));
    if t.len() == 0 {
        "clip"@
    } else {
        text::clipped(t, 40)
    }
}

/// `s` as a part of a file name.
pub fn sanitize(s: &str) -> (r: String)
    ensures
        r@ == sanitized(s@),
{
    let v = text::chars_of(s);
    let ghost all = Seq::new(s@.len(), |i: int| dash_char(s@[i]));
    let mut out = String::new();
    let mut i: usize = 0;
    while i < v.len()
        invariant
            v@ == s@,
            i <= v@.len(),
            all == Seq::new(s@.len(), |i: int| dash_char(s@[i])),
            out@ == all.take(i as int),
        decreases v@.len() - i,
    {
        let c = v[i];
        if text::is_alnum_char(c) {
            out.push(text::to_lower_char(c));
        } else {
            out.push('-');
        }
        i = i + 1;
    }
    assert(all.take(i as int) == all);
    let t = text::strip_char(out.as_str(), '-');
    if t.is_empty() {
        "clip".to_owned()
    } else {
        text::clip(t, 40)
    }
}

/// Where something is dropped.
pub open spec fn drop_path(root: Seq<char>, name: Seq<char>) -> Seq<char> {
    paths::under(vault::two_below(root, "raw"@, "incoming"@), name)
}

/// The name of an envelope: time, title, and a part of an identifier.
pub open spec fn payload_name(title: Option<Seq<char>>, now: Timestamp, id: u128) -> Seq<char> {
    stamped_name(
        match title {
            Some(t) => t,
            None => "clip"@,
        },
        "json"@,
        now,
        id,
    )
}

/// A name made of the time, a title, a part of an identifier, and an extension.
pub open spec fn stamped_name(title: Seq<char>, ext: Seq<char>, now: Timestamp, id: u128) -> Seq<char> {
    now.compact_text() + "-"@ + sanitized(title) + "-"@ + ids::short_id_text(id) + "."@ + ext
}

/// Where something with a title is dropped, at a given time and under an identifier.
pub fn stamped_path(vault: &VaultPaths, title: &str, ext: &str, now: Timestamp, id: u128) -> (r: String)
    requires
        now.dated(),
    ensures
        r@ == drop_path(vault.root@, stamped_name(title@, ext@, now, id)),
{
    let mut name = glue(now.compact().as_str(), "-");
    name.append(sanitize(title).as_str());
    name.append("-");
    name.append(ids::short_id(id).as_str());
    name.append(".");
    name.append(ext);
    let dir = vault.incoming();
    paths::join(dir.as_str(), name.as_str())
}

/// Where an envelope is dropped now.
pub fn payload_path(vault: &VaultPaths, title: &Option<String>) -> (r: String)
    ensures
        exists|now: Timestamp, id: u128|
            now.dated() && ids::is_random(id) && r@ == drop_path(
                vault.root@,
                #[trigger] payload_name(text::opt_view(*title), now, id),
            ),
{
    let now = clock::utc_now();
    let id = ids::new_job_id();
    let r = stamped_path(vault, text::text_or(title, "clip"), "json", now, id);
    assert(r@ == drop_path(vault.root@, payload_name(text::opt_view(*title), now, id)));
    r
}

/// Where text from standard input is dropped now.
pub fn stdin_path(vault: &VaultPaths, name: &str, ext: &str) -> (r: String)
    ensures
        exists|now: Timestamp, id: u128|
            now.dated() && ids::is_random(id) && r@ == drop_path(
                vault.root@,
                #[trigger] stamped_name(name@, ext@, now, id),
            ),
{
    let now = clock::utc_now();
    let id = ids::new_job_id();
    stamped_path(vault, name, ext, now, id)
}

/// The name of a file, or a stand-in.
pub open spec fn name_or(src: Seq<char>, other: Seq<char>) -> Seq<char> {
    match paths::name_of(src) {
        Some(n) => n,
        None => other,
    }
}

/// The name of a copy: the time, and the name of the file.
pub open spec fn copy_name(src: Seq<char>, now: Timestamp) -> Seq<char> {
    now.compact_text() + "-"@ + name_or(src, "file.bin"@)
}

/// Where a copy of a file is dropped at a given time.
pub fn copy_path_at(vault: &VaultPaths, src: &str, now: Timestamp) -> (r: String)
    requires
        now.dated(),
    ensures
        r@ == drop_path(vault.root@, copy_name(src@, now)),
{
    let name = paths::file_name(src);
    let mut s = glue(now.compact().as_str(), "-");
    s.append(text::text_or(&name, "file.bin"));
    let dir = vault.incoming();
    paths::join(dir.as_str(), s.as_str())
}

/// Where a copy of a file is dropped now; only a file can be copied.
pub fn copy_into_incoming(vault: &VaultPaths, src: &str, is_file: bool) -> (r: Result<
    String,
    String,
>)
    ensures
        match r {
            Ok(p) => is_file && exists|now: Timestamp|
                now.dated() && p@ == drop_path(vault.root@, #[trigger] copy_name(src@, now)),
            Err(e) => !is_file && e@ == "not a file: "@ + src@,
        },
{
    if !is_file {
        return Err(glue("not a file: ", src));
    }
    Ok(copy_path_at(vault, src, clock::utc_now()))
}

/// The name of a copy from Zotero that carries a time.
pub open spec fn zotero_stamped(stamp: Seq<char>, name: Seq<char>) -> Seq<char> {
    "zotero-"@ + stamp + "-"@ + name
}

/// The name of a copy from Zotero.
pub open spec fn zotero_name(src: Seq<char>, now: Timestamp) -> Seq<char> {
    zotero_stamped(now.compact_text(), name_or(src, "zotero.bin"@))
}

/// `n` is the name of a copy of a file called `name`: it is that name, or that name
/// behind the mark of copies from Zotero and a time, in which there is no dash.
pub open spec fn is_copy_name(n: Seq<char>, name: Seq<char>) -> bool {
    n == name || exists|stamp: Seq<char>|
        !stamp.contains('-') && n == #[trigger] zotero_stamped(stamp, name)
}

/// Whether `n` is the name of a copy of a file called `name`.
fn names_copy(n: &str, name: &str) -> (r: bool)
    ensures
        r == is_copy_name(n@, name@),
{
    if text::same(n, name) {
        return true;
    }
    proof {
        reveal_strlit("zotero-");
        reveal_strlit("-");
    }
    let v = text::chars_of(n);
    let w = text::chars_of(name);
    let tail = glue("-", name);
    if v.len() < 8 || v.len() - 8 < w.len() || !text::starts_with(n, "zotero-") || !text::ends_with(
        n,
        tail.as_str(),
    ) {
        proof {
            assert forall|stamp: Seq<char>| n@ == #[trigger] zotero_stamped(stamp, name@) implies false by {
                let z = zotero_stamped(stamp, name@);
                assert(z.len() == 8 + stamp.len() + name@.len());
                assert(z.take(7) == "zotero-"@);
                assert(z.skip(z.len() - tail@.len()) == tail@);
            }
        }
        return false;
    }
    let end: usize = v.len() - 1 - w.len();
    let ghost mid = n@.subrange(7, end as int);
    assert(n@ == zotero_stamped(mid, name@)) by {
        assert(n@.take(7) == "zotero-"@);
        assert(n@.skip(end as int) == tail@);
        assert(n@ == n@.take(7) + mid + n@.skip(end as int));
        assert(zotero_stamped(mid, name@) == "zotero-"@ + mid + tail@);
    }
    let mut i: usize = 7;
    while i < end
        invariant
            7 <= i <= end < v@.len(),
            v@ == n@,
            mid == n@.subrange(7, end as int),
            forall|k: int| 7 <= k < i ==> n@[k] != '-',
            end == n@.len() - 1 - name@.len(),
            n@ != name@,
            "zotero-"@.len() == 7,
            "-"@.len() == 1,
        decreases end - i,
    {
        if v[i] == '-' {
            proof {
                assert forall|stamp: Seq<char>|
                    n@ == #[trigger] zotero_stamped(stamp, name@) implies stamp.contains('-') by {
                    let z = zotero_stamped(stamp, name@);
                    assert(stamp.len() == end - 7);
                    assert(z[i as int] == stamp[i - 7]);
                }
            }
            return false;
        }
        i = i + 1;
    }
    proof {
        assert forall|k: int| 0 <= k < mid.len() implies mid[k] != '-' by {
            assert(mid[k] == n@[k + 7]);
        }
        assert(!mid.contains('-'));
    }
    true
}

/// Where a copy from Zotero is dropped at a given time. Its name is that of a copy of
/// the source.
pub fn zotero_path_at(vault: &VaultPaths, src: &str, now: Timestamp) -> (r: String)
    requires
        now.dated(),
    ensures
        r@ == drop_path(vault.root@, zotero_name(src@, now)),
        is_copy_name(zotero_name(src@, now), name_or(src@, "zotero.bin"@)),
{
    let name = paths::file_name(src);
    let stamp = now.compact();
    assert(!stamp@.contains('-'));
    let mut s = glue("zotero-", stamp.as_str());
    s.append("-");
    s.append(text::text_or(&name, "zotero.bin"));
    let dir = vault.incoming();
    paths::join(dir.as_str(), s.as_str())
}

/// Where a copy from Zotero is dropped now. Its name is that of a copy of the source.
pub fn zotero_path(vault: &VaultPaths, src: &str) -> (r: String)
    ensures
        exists|now: Timestamp|
            now.dated() && r@ == drop_path(vault.root@, #[trigger] zotero_name(src@, now))
                && is_copy_name(zotero_name(src@, now), name_or(src@, "zotero.bin"@)),
{
    zotero_path_at(vault, src, clock::utc_now())
}

/// A file of an export that is taken: a bibliography, or a PDF where those are wanted.
pub open spec fn taken(path: Seq<char>, copy_pdfs: bool) -> bool {
    let e = paths::lower_extension(path);
    e == "bib"@ || e == "json"@ || e == "csv"@ || (copy_pdfs && e == "pdf"@)
}

/// Whether a file of an export is taken.
pub fn takes(path: &str, copy_pdfs: bool) -> (r: bool)
    ensures
        r == taken(path@, copy_pdfs),
{
    let ext = paths::extension_lower(path);
    let e = ext.as_str();
    text::same(e, "bib") || text::same(e, "json") || text::same(e, "csv") || (copy_pdfs
        && text::same(e, "pdf"))
}

/// A file that lies where files are dropped, and its length if it is known.
#[derive(Debug, Clone)]
pub struct Dropped {
    pub path: String,
    pub len: Option<u64>,
}

/// The file is a copy that waits: its name is that of a copy of the source, and it is
/// as long.
pub open spec fn waits(d: Dropped, name: Seq<char>, len: u64) -> bool {
    d.len == Some(len) && (match paths::name_of(d.path@) {
        Some(n) => is_copy_name(n, name),
        None => false,
    })
}

/// The first file that is a copy of the source.
pub open spec fn waiting_copy(files: Seq<Dropped>, name: Seq<char>, len: u64) -> Option<Seq<char>>
    decreases files.len(),
{
    if files.len() == 0 {
        None
    } else if waits(files[0], name, len) {
        Some(files[0].path@)
    } else {
        waiting_copy(files.drop_first(), name, len)
    }
}

/// A copy of a source that is already waiting, if there is one. Where the length of
/// the source is unknown, none is looked for.
pub fn pending_copy(files: &Vec<Dropped>, src: &str, len: Option<u64>) -> (r: Option<String>)
    ensures
        text::opt_view(r) == match len {
            Some(n) => waiting_copy(files@, name_or(src@, "zotero.bin"@), n),
            None => None,
        },
{
    let n: u64 = match len {
        Some(n) => n,
        None => {
            return None;
        },
    };
    let found = paths::file_name(src);
    let name = text::text_or(&found, "zotero.bin");
    let mut i: usize = 0;
    assert(files@.skip(0) == files@);
    while i < files.len()
        invariant
            i <= files@.len(),
            len == Some(n),
            name@ == name_or(src@, "zotero.bin"@),
            waiting_copy(files@, name@, n) == waiting_copy(files@.skip(i as int), name@, n),
        decreases files@.len() - i,
    {
        let ghost rest = files@.skip(i as int);
        assert(rest[0] == files@[i as int]);
        assert(rest.drop_first() == files@.skip(i + 1));
        let named = match paths::file_name(files[i].path.as_str()) {
            Some(f) => names_copy(f.as_str(), name),
            None => false,
        };
        let long = match files[i].len {
            Some(m) => m == n,
            None => false,
        };
        if named && long {
            return Some(files[i].path.clone());
        }
        i = i + 1;
    }
    None
}

/// A title in a file name holds only small letters, digits and dashes, is not empty,
/// and is not too long: whatever was sent, the file is dropped where it should be.
pub proof fn dropped_titles_are_safe(s: Seq<char>)
    ensures
        0 < sanitized(s).len() <= 40,
        forall|i: int|
            0 <= i < sanitized(s).len() ==> {
                let c = #[trigger] sanitized(s)[i];
                ('a' <= c && c <= 'z') || ('0' <= c && c <= '9') || c == '-'
            },
{
    reveal_strlit("clip");
    let all = Seq::new(s.len(), |i: int| dash_char(s[i]));
    let (a, b) = crate::slug::lemma_stripped_part(all, text::equal_to('-'));
    let t = text::stripped(all, text::equal_to('-'));
    if t.len() > 0 {
        assert forall|i: int| 0 <= i < sanitized(s).len() implies {
            let c = #[trigger] sanitized(s)[i];
            ('a' <= c && c <= 'z') || ('0' <= c && c <= '9') || c == '-'
        } by {
            assert(sanitized(s)[i] == all[a + i]);
        }
    }
}

/// A title of small letters, digits and dashes is kept in the name of the file, whole up to
/// forty characters.
pub proof fn plain_titles_are_kept(s: Seq<char>)
    requires
        0 < s.len() <= 40,
        forall|i: int|
            0 <= i < s.len() ==> ('a' <= #[trigger] s[i] && s[i] <= 'z') || ('0' <= s[i] && s[i]
                <= '9') || s[i] == '-',
        s[0] != '-',
        s.last() != '-',
    ensures
        sanitized(s) == s,
{
    let t = Seq::new(s.len(), |i: int| dash_char(s[i]));
    assert(t == s) by {
        assert forall|i: int| 0 <= i < s.len() implies #[trigger] t[i] == s[i] by {}
    }
    let n = s.len() as int;
    assert(!text::equal_to('-')(s[0]) && !text::equal_to('-')(s[n - 1]));
    text::lemma_stripped(s, text::equal_to('-'), 0, n);
    assert(s.subrange(0, n) == s);
}

/// What is dropped lies in `raw/incoming`, under a name that tells when it came, what it is
/// called, and which it is, with its extension.
pub proof fn drops_lie_in_incoming(
    root: Seq<char>,
    title: Seq<char>,
    ext: Seq<char>,
    now: Timestamp,
    id: u128,
)
    requires
        forall|i: int|
            0 <= i < now.compact_text().len() ==> clock::date_char(#[trigger] now.compact_text()[i]),
        forall|i: int| 0 <= i < ids::short_id_text(id).len() ==> #[trigger] ids::short_id_text(id)[i] != '/',
        ext.len() > 0,
        forall|i: int| 0 <= i < ext.len() ==> (#[trigger] ext[i]) != '/' && ext[i] != '.',
    ensures
        ({
            let p = drop_path(root, stamped_name(title, ext, now, id));
            let stem = now.compact_text() + "-"@ + sanitized(title) + "-"@ + ids::short_id_text(id);
            &&& paths::inside(p, paths::under(paths::under(root, "raw"@), "incoming"@))
            &&& paths::stem_of(p) == Some(stem)
            &&& paths::extension_of(p) == Some(ext)
        }),
{
    reveal_strlit("-");
    reveal_strlit(".");
    dropped_titles_are_safe(title);
    let d = now.compact_text();
    let t = sanitized(title);
    let i = ids::short_id_text(id);
    let stem = d + "-"@ + t + "-"@ + i;
    let name = stem + seq!['.'] + ext;
    assert("."@ == seq!['.']);
    assert(stamped_name(title, ext, now, id) == name);
    let a = d.len() as int;
    let b = a + 1 + t.len();
    assert forall|k: int| 0 <= k < stem.len() implies #[trigger] stem[k] != '/' by {
        if k < a {
            assert(stem[k] == d[k]);
        } else if k == a {
            assert(stem[k] == '-');
        } else if k < b {
            assert(stem[k] == t[k - a - 1]);
        } else if k == b {
            assert(stem[k] == '-');
        } else {
            assert(stem[k] == i[k - b - 1]);
        }
    }
    let dir = vault::two_below(root, "raw"@, "incoming"@);
    paths::names_have_stem_and_extension(dir, stem, ext);
    assert forall|k: int| 0 <= k < name.len() implies #[trigger] name[k] != '/' by {
        if k < stem.len() {
            assert(name[k] == stem[k]);
        } else if k > stem.len() {
            assert(name[k] == ext[k - stem.len() - 1]);
        }
    }
    assert(name.len() > 2);
    paths::lemma_components_under(dir, name);
}

/// An envelope is dropped as JSON, under its title, or as a clip where it has none.
pub proof fn envelopes_are_dropped_under_their_title(title: Seq<char>, now: Timestamp, id: u128)
    ensures
        payload_name(Some(title), now, id) == stamped_name(title, "json"@, now, id),
        payload_name(None, now, id) == stamped_name("clip"@, "json"@, now, id),
{
}

/// A copy keeps the name of the file that it was made of, behind the time of the copy.
pub proof fn copies_keep_the_name(dir: Seq<char>, name: Seq<char>, now: Timestamp)
    requires
        paths::plain_name(name),
    ensures
        copy_name(paths::under(dir, name), now) == now.compact_text() + "-"@ + name,
        zotero_name(paths::under(dir, name), now) == "zotero-"@ + now.compact_text() + "-"@ + name,
        text::ends(copy_name(paths::under(dir, name), now), name),
{
    paths::lemma_name_under(dir, name);
    let c = copy_name(paths::under(dir, name), now);
    assert(c.skip(c.len() - name.len()) == name);
}

/// A file that waits to be worked off is recognised as a copy of another by its name, as it
/// is or stamped, and by its length, and by nothing else.
pub proof fn waiting_copies_are_recognised(
    files: Seq<Dropped>,
    name: Seq<char>,
    len: u64,
)
    ensures
        match waiting_copy(files, name, len) {
            Some(p) => exists|i: int|
                0 <= i < files.len() && (#[trigger] files[i]).path@ == p && files[i].len == Some(len)
                    && waits(files[i], name, len) && (paths::name_of(p) matches Some(n)
                    && text::ends(n, name)),
            None => forall|i: int|
                0 <= i < files.len() ==> !waits(#[trigger] files[i], name, len) && (files[i].len
                    == Some(len) ==> paths::name_of(files[i].path@) != Some(name)),
        },
    decreases files.len(),
{
    if files.len() > 0 {
        let d = files.drop_first();
        waiting_copies_are_recognised(d, name, len);
        match waiting_copy(files, name, len) {
            Some(p) => {
                if waits(files[0], name, len) {
                    assert(files[0].path@ == p);
                    let n = paths::name_of(p).unwrap();
                    if n == name {
                        assert(n.skip(0) == name);
                    } else {
                        let stamp = choose|stamp: Seq<char>|
                            !stamp.contains('-') && n == #[trigger] zotero_stamped(stamp, name);
                        assert(n.skip(n.len() - name.len()) == name);
                    }
                } else {
                    let i = choose|i: int|
                        0 <= i < d.len() && (#[trigger] d[i]).path@ == p && d[i].len == Some(len)
                            && waits(d[i], name, len) && (paths::name_of(p) matches Some(n)
                            && text::ends(n, name));
                    assert(files[i + 1] == d[i]);
                }
            },
            None => {
                assert forall|i: int| 0 <= i < files.len() implies !waits(
                    #[trigger] files[i],
                    name,
                    len,
                ) && (files[i].len == Some(len) ==> paths::name_of(files[i].path@) != Some(name)) by {
                    if i > 0 {
                        assert(d[i - 1] == files[i]);
                    }
                }
            },
        }
    }
}

/// A stamped copy that waits, with the length of the source, stands for the source: it is
/// not copied again.
pub proof fn stamped_copies_stand_for_the_source(
    dir: Seq<char>,
    stamp: Seq<char>,
    name: Seq<char>,
    d: Dropped,
    len: u64,
)
    requires
        paths::plain_name(name),
        !stamp.contains('-'),
        !stamp.contains('/'),
        d.path@ == paths::under(dir, "zotero-"@ + stamp + "-"@ + name),
    ensures
        d.len == Some(len) ==> waits(d, name, len),
        d.len != Some(len) ==> !waits(d, name, len),
{
    reveal_strlit("zotero-");
    reveal_strlit("-");
    let n = zotero_stamped(stamp, name);
    let a = 7 + stamp.len() as int;
    assert forall|k: int| 0 <= k < n.len() implies #[trigger] n[k] != '/' by {
        if k < 7 {
            assert(n[k] == "zotero-"@[k]);
        } else if k < a {
            assert(n[k] == stamp[k - 7]);
            assert(stamp.contains(stamp[k - 7]));
        } else if k == a {
            assert(n[k] == '-');
        } else {
            assert(n[k] == name[k - a - 1]);
        }
    }
    assert(n.len() > 2);
    paths::lemma_name_under(dir, n);
    assert(is_copy_name(n, name));
}

/// Exports are taken over by their extension, whatever its case, and documents only where
/// they are wanted.
pub proof fn exports_are_taken_by_their_extension(
    base: Seq<char>,
    stem: Seq<char>,
    ext: Seq<char>,
    copy_pdfs: bool,
)
    requires
        stem.len() > 0,
        forall|i: int| 0 <= i < stem.len() ==> #[trigger] stem[i] != '/',
        ext.len() > 0,
        forall|i: int| 0 <= i < ext.len() ==> (#[trigger] ext[i]) != '/' && ext[i] != '.',
    ensures
        taken(paths::under(base, stem + seq!['.'] + ext), copy_pdfs) <==> text::lowered(ext)
            == "bib"@ || text::lowered(ext) == "json"@ || text::lowered(ext) == "csv"@ || (copy_pdfs
            && text::lowered(ext) == "pdf"@),
{
    paths::names_have_stem_and_extension(base, stem, ext);
}

} // verus!
