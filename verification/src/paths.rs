//! File paths as text, with `/` between their components.
//!
//! The functions agree with `std::path` on Unix for paths that are valid UTF-8.

use vstd::prelude::*;
use vstd::string::*;

use crate::search;
use crate::split;
use crate::text;

verus! {

/// The path starts at the root directory.
pub open spec fn rooted(p: Seq<char>) -> bool {
    p.len() > 0 && p[0] == '/'
}

/// `rel` taken from the directory `base`; a path from the root stands for itself.
pub open spec fn under(base: Seq<char>, rel: Seq<char>) -> Seq<char> {
    if rooted(rel) {
        rel
    } else if base.len() > 0 && base.last() != '/' {
        base + seq!['/'] + rel
    } else {
        base + rel
    }
}

/// The `i`-th piece between slashes is a component: it is not empty, and it is
/// not `.`, which means nothing but at the very start.
pub open spec fn is_component(ps: Seq<Seq<char>>, i: int) -> bool {
    ps[i].len() > 0 && (i == 0 || ps[i] != seq!['.'])
}

/// The components among the first `n` pieces.
pub open spec fn components_among(ps: Seq<Seq<char>>, n: int) -> Seq<Seq<char>>
    decreases n,
{
    if n <= 0 {
        Seq::empty()
    } else if is_component(ps, n - 1) {
        components_among(ps, n - 1).push(ps[n - 1])
    } else {
        components_among(ps, n - 1)
    }
}

/// The components of the path, without the root.
pub open spec fn components_of(p: Seq<char>) -> Seq<Seq<char>> {
    let ps = split::pieces(p, '/');
    components_among(ps, ps.len() as int)
}

/// The components of the path, the root among them.
pub open spec fn full_components(p: Seq<char>) -> Seq<Seq<char>> {
    if rooted(p) {
        seq![seq!['/']] + components_of(p)
    } else {
        components_of(p)
    }
}

/// Every component of `base` is one of `p`, from the first on.
pub open spec fn inside(p: Seq<char>, base: Seq<char>) -> bool {
    let a = full_components(p);
    let b = full_components(base);
    b.len() <= a.len() && a.take(b.len() as int) == b
}

/// The last component, when it names a file or directory.
pub open spec fn name_of(p: Seq<char>) -> Option<Seq<char>> {
    let c = components_of(p);
    if c.len() > 0 && c.last() != seq!['.'] && c.last() != seq!['.', '.'] {
        Some(c.last())
    } else {
        None
    }
}

/// The position of the dot before the extension of a file name. A dot at the very
/// start does not count.
pub open spec fn extension_dot(name: Seq<char>) -> Option<int> {
    match search::last_of(name, '.') {
        Some(d) => if d > 0 {
            Some(d)
        } else {
            None
        },
        None => None,
    }
}

/// What follows the last dot of the file name.
pub open spec fn extension_of(p: Seq<char>) -> Option<Seq<char>> {
    match name_of(p) {
        Some(n) => match extension_dot(n) {
            Some(d) => Some(n.skip(d + 1)),
            None => None,
        },
        None => None,
    }
}

/// The file name without its extension.
pub open spec fn stem_of(p: Seq<char>) -> Option<Seq<char>> {
    match name_of(p) {
        Some(n) => match extension_dot(n) {
            Some(d) => Some(n.take(d)),
            None => Some(n),
        },
        None => None,
    }
}

/// The extension in small letters, or nothing.
pub open spec fn lower_extension(p: Seq<char>) -> Seq<char> {
    match extension_of(p) {
        Some(e) => text::lowered(e),
        None => Seq::empty(),
    }
}

/// A plain name put under a directory is the name of the whole path.
pub proof fn lemma_name_under(base: Seq<char>, name: Seq<char>)
    requires
        plain_name(name),
    ensures
        name_of(under(base, name)) == Some(name),
{
    let p = under(base, name);
    assert(name[0] != '/');
    let ps = split::pieces(p, '/');
    if base.len() == 0 {
        assert(p == name);
        split::lemma_first_of_is(name, '/', name.len() as int);
        assert(ps == seq![name]);
    } else {
        let b = if base.last() == '/' {
            base.drop_last()
        } else {
            base
        };
        assert(p == b + seq!['/'] + name);
        split::lemma_pieces_last(b, name, '/');
    }
    let n = ps.len() as int;
    assert(ps[n - 1] == name);
    assert(components_of(p) == components_among(ps, n - 1).push(name));
}

/// Looking at the first pieces only.
proof fn lemma_components_front(ps: Seq<Seq<char>>, more: Seq<char>, n: int)
    requires
        0 <= n <= ps.len(),
    ensures
        components_among(ps.push(more), n) == components_among(ps, n),
    decreases n,
{
    if n > 0 {
        lemma_components_front(ps, more, n - 1);
        assert(ps.push(more)[n - 1] == ps[n - 1]);
    }
}

/// A name that stands for itself in a path.
pub open spec fn plain_name(name: Seq<char>) -> bool {
    &&& name.len() > 0
    &&& forall|k: int| 0 <= k < name.len() ==> #[trigger] name[k] != '/'
    &&& name != seq!['.']
    &&& name != seq!['.', '.']
}

/// A plain name put under a directory is one component more.
pub proof fn lemma_components_under(base: Seq<char>, name: Seq<char>)
    requires
        plain_name(name),
    ensures
        full_components(under(base, name)) == full_components(base).push(name),
        inside(under(base, name), base),
{
    let p = under(base, name);
    assert(name[0] != '/');
    if base.len() == 0 {
        assert(p == name);
        split::lemma_first_of_is(name, '/', name.len() as int);
        split::lemma_first_of_is(base, '/', 0);
        assert(split::pieces(p, '/') == seq![name]);
        assert(split::pieces(base, '/') == seq![base]);
        assert(components_among(seq![name], 0) == Seq::<Seq<char>>::empty());
        assert(components_among(seq![base], 0) == Seq::<Seq<char>>::empty());
        assert(components_of(p) == components_among(seq![name], 0).push(name));
        assert(components_of(base) == Seq::<Seq<char>>::empty());
    } else {
        let b = if base.last() == '/' {
            base.drop_last()
        } else {
            base
        };
        let ps = split::pieces(b, '/');
        let n = ps.len() as int;
        assert(p == b + seq!['/'] + name);
        split::lemma_pieces_last(b, name, '/');
        lemma_components_front(ps, name, n);
        assert(ps.push(name)[n] == name);
        assert(components_of(p) == components_among(ps, n).push(name));
        if base.last() == '/' {
            let e = Seq::<char>::empty();
            assert(base == b + seq!['/'] + e);
            split::lemma_pieces_last(b, e, '/');
            lemma_components_front(ps, e, n);
            assert(ps.push(e)[n] == e);
            assert(components_of(base) == components_among(ps, n));
        }
        assert(rooted(p) == rooted(base)) by {
            assert(p[0] == base[0]);
        }
    }
    let a = full_components(p);
    let c = full_components(base);
    assert(a == c.push(name));
    assert(a.take(c.len() as int) == c);
}

/// The first components of a longer list of pieces.
proof fn lemma_components_prefix(ps: Seq<Seq<char>>, more: Seq<Seq<char>>, n: int)
    requires
        0 <= n <= ps.len(),
    ensures
        components_among(ps + more, n) == components_among(ps, n),
    decreases n,
{
    if n > 0 {
        lemma_components_prefix(ps, more, n - 1);
        assert((ps + more)[n - 1] == ps[n - 1]);
    }
}

/// More pieces add to the components, and what they add are pieces.
proof fn lemma_components_grow(ps: Seq<Seq<char>>, n: int, m: int)
    requires
        0 <= n <= m <= ps.len(),
    ensures
        components_among(ps, n).len() <= components_among(ps, m).len(),
        components_among(ps, m).take(components_among(ps, n).len() as int) == components_among(ps, n),
        forall|k: int|
            components_among(ps, n).len() <= k < components_among(ps, m).len() ==> exists|i: int|
                n <= i < m && #[trigger] components_among(ps, m)[k] == #[trigger] ps[i],
    decreases m - n,
{
    let a = components_among(ps, n);
    if n == m {
        assert(a.take(a.len() as int) == a);
    } else {
        lemma_components_grow(ps, n, m - 1);
        let b = components_among(ps, m - 1);
        let c = components_among(ps, m);
        assert(c.take(a.len() as int) == b.take(a.len() as int));
        assert forall|k: int| a.len() <= k < c.len() implies exists|i: int|
            n <= i < m && #[trigger] c[k] == #[trigger] ps[i] by {
            if k < b.len() {
                assert(c[k] == b[k]);
                let i = choose|i: int| n <= i < m - 1 && b[k] == #[trigger] ps[i];
                assert(c[k] == ps[i]);
            } else {
                assert(c[k] == ps[m - 1]);
            }
        }
    }
}

/// A path from a directory lies inside it, as far as its text goes; and what it adds to
/// the directory are pieces of its own.
pub proof fn lemma_inside_under(base: Seq<char>, rel: Seq<char>)
    requires
        !rooted(rel),
    ensures
        inside(under(base, rel), base),
        forall|k: int|
            full_components(base).len() <= k < full_components(under(base, rel)).len() ==> exists|i: int|
                0 <= i < split::pieces(rel, '/').len() && #[trigger] full_components(
                    under(base, rel),
                )[k] == #[trigger] split::pieces(rel, '/')[i],
{
    let p = under(base, rel);
    let rs = split::pieces(rel, '/');
    let a = full_components(p);
    let c = full_components(base);
    if base.len() == 0 {
        assert(p == rel);
        split::lemma_first_of_is(base, '/', 0);
        assert(split::pieces(base, '/') == seq![base]);
        assert(components_among(seq![base], 0) == Seq::<Seq<char>>::empty());
        assert(c == Seq::<Seq<char>>::empty());
        assert(a.take(0) == c);
        lemma_components_grow(rs, 0, rs.len() as int);
        assert(components_among(rs, 0) == Seq::<Seq<char>>::empty());
    } else {
        let b = if base.last() == '/' {
            base.drop_last()
        } else {
            base
        };
        let ps = split::pieces(b, '/');
        let n = ps.len() as int;
        let all = ps + rs;
        assert(p == b + seq!['/'] + rel);
        split::lemma_pieces_add(b, rel, '/');
        lemma_components_prefix(ps, rs, n);
        lemma_components_grow(all, n, all.len() as int);
        if base.last() == '/' {
            let e = Seq::<char>::empty();
            assert(base == b + seq!['/'] + e);
            split::lemma_pieces_last(b, e, '/');
            lemma_components_front(ps, e, n);
            assert(ps.push(e)[n] == e);
        }
        assert(components_of(base) == components_among(all, n));
        assert(components_of(p) == components_among(all, all.len() as int));
        assert(p[0] == base[0]);
        let off = if rooted(base) {
            1int
        } else {
            0int
        };
        assert(a.take(c.len() as int) == c);
        assert forall|k: int| c.len() <= k < a.len() implies exists|i: int|
            0 <= i < rs.len() && #[trigger] a[k] == #[trigger] rs[i] by {
            assert(a[k] == components_of(p)[k - off]);
            let i = choose|i: int|
                n <= i < all.len() && components_of(p)[k - off] == #[trigger] all[i];
            assert(all[i] == rs[i - n]);
        }
    }
}

/// What lies below what lies below a directory lies below it.
pub proof fn lemma_inside_trans(p: Seq<char>, q: Seq<char>, base: Seq<char>)
    requires
        inside(p, q),
        inside(q, base),
    ensures
        inside(p, base),
{
    let a = full_components(p);
    let b = full_components(q);
    let c = full_components(base);
    assert(a.take(c.len() as int) == a.take(b.len() as int).take(c.len() as int));
}

/// `rel` taken from the directory `base`.
pub fn join(base: &str, rel: &str) -> (r: String)
    ensures
        r@ == under(base@, rel@),
{
    let b = text::chars_of(base);
    let n = text::chars_of(rel);
    if n.len() > 0 && n[0] == '/' {
        return rel.to_owned();
    }
    let mut out = base.to_owned();
    if b.len() > 0 && b[b.len() - 1] != '/' {
        out.push('/');
        assert(base@.push('/') == base@ + seq!['/']);
    }
    out.append(rel);
    out
}

/// The components of the path, without the root.
pub fn components(p: &str) -> (r: Vec<String>)
    ensures
        text::views(r@) == components_of(p@),
{
    let ps = split::split(p, '/');
    let ghost all = text::views(ps@);
    let mut out: Vec<String> = Vec::new();
    let mut i: usize = 0;
    proof {
        reveal_strlit(".");
    }
    assert("."@ == seq!['.']);
    assert(text::views(out@) == components_among(all, 0));
    while i < ps.len()
        invariant
            i <= ps@.len(),
            all == text::views(ps@),
            "."@ == seq!['.'],
            text::views(out@) == components_among(all, i as int),
        decreases ps@.len() - i,
    {
        let ghost before = out@;
        assert(all[i as int] == ps@[i as int]@);
        if !ps[i].as_str().is_empty() && (i == 0 || !text::same(ps[i].as_str(), ".")) {
            out.push(ps[i].clone());
            assert(text::views(out@) == text::views(before).push(all[i as int]));
        }
        i = i + 1;
    }
    out
}

/// The last component, when it names a file or directory.
pub fn file_name(p: &str) -> (r: Option<String>)
    ensures
        text::opt_view(r) == name_of(p@),
{
    let c = components(p);
    proof {
        reveal_strlit(".");
        reveal_strlit("..");
    }
    assert("."@ == seq!['.']);
    assert(".."@ == seq!['.', '.']);
    if c.len() == 0 {
        return None;
    }
    let last = &c[c.len() - 1];
    assert(components_of(p@).last() == last@);
    if text::same(last.as_str(), ".") || text::same(last.as_str(), "..") {
        None
    } else {
        Some(last.clone())
    }
}

/// What follows the last dot of the file name.
pub fn extension(p: &str) -> (r: Option<String>)
    ensures
        text::opt_view(r) == extension_of(p@),
{
    let name = match file_name(p) {
        Some(n) => n,
        None => {
            return None;
        },
    };
    match search::find_last(name.as_str(), '.') {
        Some(d) => {
            if d > 0 {
                let v = text::chars_of(name.as_str());
                let n: usize = v.len();
                assert(name@.subrange(d + 1, n as int) == name@.skip(d + 1));
                Some(text::string_between(&v, d + 1, n))
            } else {
                None
            }
        },
        None => None,
    }
}

/// The file name without its extension.
pub fn file_stem(p: &str) -> (r: Option<String>)
    ensures
        text::opt_view(r) == stem_of(p@),
{
    let name = match file_name(p) {
        Some(n) => n,
        None => {
            return None;
        },
    };
    match search::find_last(name.as_str(), '.') {
        Some(d) => {
            if d > 0 {
                assert(name@.take(d as int) == text::clipped(name@, d as int));
                Some(text::clip(name.as_str(), d))
            } else {
                Some(name)
            }
        },
        None => Some(name),
    }
}

/// The extension in small letters, or nothing.
pub fn extension_lower(p: &str) -> (r: String)
    ensures
        r@ == lower_extension(p@),
{
    match extension(p) {
        Some(e) => text::to_lower(e.as_str()),
        None => String::new(),
    }
}

/// Whether `p` is `base` or lies below it, judged by components.
pub fn is_inside(p: &str, base: &str) -> (r: bool)
    ensures
        r == inside(p@, base@),
{
    let a = full(p);
    let b = full(base);
    let ghost x = full_components(p@);
    let ghost y = full_components(base@);
    if b.len() > a.len() {
        return false;
    }
    let mut i: usize = 0;
    while i < b.len()
        invariant
            i <= b@.len() <= a@.len(),
            x == text::views(a@),
            y == text::views(b@),
            x == full_components(p@),
            y == full_components(base@),
            forall|k: int| 0 <= k < i ==> x[k] == y[k],
        decreases b@.len() - i,
    {
        assert(x[i as int] == a@[i as int]@ && y[i as int] == b@[i as int]@);
        if !text::same(a[i].as_str(), b[i].as_str()) {
            assert(x.take(y.len() as int)[i as int] != y[i as int]);
            return false;
        }
        i = i + 1;
    }
    assert(x.take(y.len() as int) == y);
    true
}

/// Whether the two paths have the same components.
pub fn same_path(a: &str, b: &str) -> (r: bool)
    ensures
        r == (full_components(a@) == full_components(b@)),
{
    let r = is_inside(a, b) && is_inside(b, a);
    proof {
        let x = full_components(a@);
        let y = full_components(b@);
        assert(x.take(x.len() as int) == x);
        assert(y.take(y.len() as int) == y);
    }
    r
}

/// The components of the path, the root among them.
fn full(p: &str) -> (r: Vec<String>)
    ensures
        text::views(r@) == full_components(p@),
{
    let v = text::chars_of(p);
    let mut c = components(p);
    if v.len() > 0 && v[0] == '/' {
        let mut root = String::new();
        root.push('/');
        assert(root@ == seq!['/']);
        let ghost before = c@;
        c.insert(0, root);
        assert(text::views(c@) == seq![seq!['/']] + text::views(before));
    }
    c
}

/// A file that is named by a stem and an extension has just these: the extension is what
/// stands behind the last dot of its name, and the stem is what stands before it.
pub proof fn names_have_stem_and_extension(base: Seq<char>, stem: Seq<char>, ext: Seq<char>)
    requires
        stem.len() > 0,
        forall|i: int| 0 <= i < stem.len() ==> #[trigger] stem[i] != '/',
        ext.len() > 0,
        forall|i: int| 0 <= i < ext.len() ==> (#[trigger] ext[i]) != '/' && ext[i] != '.',
    ensures
        name_of(under(base, stem + seq!['.'] + ext)) == Some(stem + seq!['.'] + ext),
        stem_of(under(base, stem + seq!['.'] + ext)) == Some(stem),
        extension_of(under(base, stem + seq!['.'] + ext)) == Some(ext),
        lower_extension(under(base, stem + seq!['.'] + ext)) == text::lowered(ext),
{
    let name = stem + seq!['.'] + ext;
    let n = stem.len() as int;
    assert forall|k: int| 0 <= k < name.len() implies #[trigger] name[k] != '/' by {
        if k < n {
            assert(name[k] == stem[k]);
        } else if k > n {
            assert(name[k] == ext[k - n - 1]);
        }
    }
    assert(name.len() >= 3);
    lemma_name_under(base, name);
    assert(name[n] == '.');
    assert forall|k: int| n < k < name.len() implies #[trigger] name[k] != '.' by {
        assert(name[k] == ext[k - n - 1]);
    }
    search::lemma_last_of_is(name, '.', n);
    assert(name.skip(n + 1) == ext);
    assert(name.take(n) == stem);
}

/// A name without a dot is all stem.
pub proof fn names_without_a_dot_have_no_extension(base: Seq<char>, name: Seq<char>)
    requires
        plain_name(name),
        forall|i: int| 0 <= i < name.len() ==> #[trigger] name[i] != '.',
    ensures
        name_of(under(base, name)) == Some(name),
        stem_of(under(base, name)) == Some(name),
        extension_of(under(base, name)) is None,
{
    lemma_name_under(base, name);
    lemma_no_last(name, '.');
}

proof fn lemma_no_last(s: Seq<char>, x: char)
    requires
        forall|i: int| 0 <= i < s.len() ==> #[trigger] s[i] != x,
    ensures
        search::last_of(s, x) is None,
    decreases s.len(),
{
    if s.len() > 0 {
        let d = s.drop_last();
        assert(s[s.len() - 1] != x);
        assert forall|i: int| 0 <= i < d.len() implies #[trigger] d[i] != x by {
            assert(d[i] == s[i]);
        }
        lemma_no_last(d, x);
    }
}

} // verus!
