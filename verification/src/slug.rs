//! Project slugs: names of directories made out of free text.

use vstd::prelude::*;
use vstd::string::*;

use crate::split;
use crate::text;

verus! {

/// Small letters and digits.
pub open spec fn slug_char(c: char) -> bool {
    ('a' <= c && c <= 'z') || ('0' <= c && c <= '9')
}

/// `s` with every longest run of other characters than small letters and digits
/// replaced by one dash.
pub open spec fn dashed(s: Seq<char>) -> Seq<char>
    decreases s.len(),
{
    if s.len() == 0 {
        Seq::empty()
    } else if slug_char(s.last()) {
        dashed(s.drop_last()).push(s.last())
    } else if s.len() > 1 && !slug_char(s[s.len() - 2]) {
        dashed(s.drop_last())
    } else {
        dashed(s.drop_last()).push('-')
    }
}

/// `regex::Regex::replace_all` with the pattern for runs of anything but small
/// letters and digits: each longest such run gives way to one dash, and the rest
/// stays.
#[verifier::external_body]
fn replace_runs(pattern: &str, s: &str, by: &str) -> (r: String)
    requires
        pattern@ == "[^a-z0-9]+"@,
        by@ == "-"@,
    ensures
        r@ == dashed(s@),
{
    regex::Regex::new(pattern).expect("regex").replace_all(s, by).into_owned()
}

/// The slug of a free text.
pub open spec fn slug_of(s: Seq<char>) -> Seq<char> {
    let t = text::stripped(dashed(text::lowered(text::trimmed(s))), text::equal_to('-'));
    if t.len() == 0 {
        "inbox"@
    } else {
        text::clipped(t, 64)
    }
}

/// Turn free text into a filesystem-safe project slug.
pub fn slugify(input: &str) -> (r: String)
    ensures
        r@ == slug_of(input@),
{
    let lower = text::to_lower(text::trim(input));
    let s = replace_runs("[^a-z0-9]+", lower.as_str(), "-");
    let t = text::strip_char(s.as_str(), '-');
    if t.is_empty() {
        "inbox".to_owned()
    } else {
        text::clip(t, 64)
    }
}

/// Lower case words of letters and digits with single dashes between them, short
/// enough for a directory name.
pub open spec fn is_kebab(s: Seq<char>) -> bool {
    &&& 0 < s.len() <= 64
    &&& forall|i: int| 0 <= i < s.len() ==> slug_char(#[trigger] s[i]) || s[i] == '-'
    &&& slug_char(s[0])
    &&& slug_char(s.last())
    &&& forall|i: int| 0 <= i < s.len() - 1 && s[i] == '-' ==> #[trigger] s[i + 1] != '-'
}

proof fn lemma_dashed_chars(s: Seq<char>)
    ensures
        forall|i: int| 0 <= i < dashed(s).len() ==> slug_char(#[trigger] dashed(s)[i]) || dashed(s)[i] == '-',
    decreases s.len(),
{
    if s.len() > 0 {
        let d = dashed(s.drop_last());
        lemma_dashed_chars(s.drop_last());
        assert forall|i: int| 0 <= i < dashed(s).len() implies slug_char(#[trigger] dashed(s)[i])
            || dashed(s)[i] == '-' by {
            assert(i < d.len() ==> dashed(s)[i] == d[i]);
        }
    }
}

/// Stripping leaves a part of the text, without `p` at its ends.
pub proof fn lemma_stripped_part(s: Seq<char>, p: spec_fn(char) -> bool) -> (r: (int, int))
    ensures
        0 <= r.0 <= r.1 <= s.len(),
        text::stripped(s, p) == s.subrange(r.0, r.1),
        r.0 < r.1 ==> !p(s[r.0]) && !p(s[r.1 - 1]),
{
    let i = lemma_front_cut(s, p);
    let t = s.skip(i);
    let j = lemma_back_cut(t, p);
    assert(t.take(j) == s.subrange(i, i + j));
    if j > 0 {
        assert(t[0] == s[i]);
        assert(t[j - 1] == s[i + j - 1]);
        assert(i < s.len());
    }
    (i, i + j)
}

/// Where stripping at the front starts.
pub proof fn lemma_front_cut(s: Seq<char>, p: spec_fn(char) -> bool) -> (i: int)
    ensures
        0 <= i <= s.len(),
        text::skip_front(s, p) == s.skip(i),
        i < s.len() ==> !p(s[i]),
    decreases s.len(),
{
    if s.len() > 0 && p(s[0]) {
        let j = lemma_front_cut(s.drop_first(), p);
        assert(s.drop_first().skip(j) == s.skip(j + 1));
        j + 1
    } else {
        assert(s.skip(0) == s);
        0
    }
}

proof fn lemma_back_cut(s: Seq<char>, p: spec_fn(char) -> bool) -> (j: int)
    ensures
        0 <= j <= s.len(),
        text::skip_back(s, p) == s.take(j),
        j > 0 ==> !p(s[j - 1]),
    decreases s.len(),
{
    if s.len() > 0 && p(s.last()) {
        let j = lemma_back_cut(s.drop_last(), p);
        assert(s.drop_last().take(j) == s.take(j));
        j
    } else {
        assert(s.take(s.len() as int) == s);
        s.len() as int
    }
}

/// A slug is safe as the name of a directory: it is not empty, has at most 64
/// characters, starts with a letter or digit, and holds only small letters, digits
/// and dashes.
pub proof fn slug_is_a_safe_name(s: Seq<char>)
    ensures
        0 < slug_of(s).len() <= 64,
        slug_char(slug_of(s)[0]),
        forall|i: int| 0 <= i < slug_of(s).len() ==> slug_char(#[trigger] slug_of(s)[i]) || slug_of(s)[i] == '-',
{
    reveal_strlit("inbox");
    let d = dashed(text::lowered(text::trimmed(s)));
    lemma_dashed_chars(text::lowered(text::trimmed(s)));
    let (i, j) = lemma_stripped_part(d, text::equal_to('-'));
    let t = text::stripped(d, text::equal_to('-'));
    if t.len() > 0 {
        assert(t[0] == d[i]);
        assert(!text::equal_to('-')(d[i]));
        assert forall|k: int| 0 <= k < slug_of(s).len() implies slug_char(#[trigger] slug_of(s)[k])
            || slug_of(s)[k] == '-' by {
            assert(slug_of(s)[k] == d[i + k]);
        }
    }
}

proof fn lemma_dashed_kebab(s: Seq<char>)
    requires
        forall|i: int| 0 <= i < s.len() ==> slug_char(#[trigger] s[i]) || s[i] == '-',
        s.len() > 0 ==> slug_char(s[0]),
        forall|i: int| 0 <= i < s.len() - 1 && s[i] == '-' ==> #[trigger] s[i + 1] != '-',
    ensures
        dashed(s) == s,
    decreases s.len(),
{
    if s.len() > 0 {
        let t = s.drop_last();
        assert forall|i: int| 0 <= i < t.len() - 1 && t[i] == '-' implies #[trigger] t[i + 1]
            != '-' by {
            assert(s[i + 1] != '-');
        }
        lemma_dashed_kebab(t);
        assert(t.push(s.last()) == s);
        if !slug_char(s.last()) {
            assert(s.len() > 1);
            let k = s.len() - 2;
            assert(s[k + 1] == '-');
            assert(slug_char(s[k]));
        }
    }
}

/// A project that is named by its slug keeps it: making a slug of a slug in lower
/// case words with single dashes changes nothing.
pub proof fn kebab_slug_is_kept(s: Seq<char>)
    requires
        is_kebab(s),
    ensures
        slug_of(s) == s,
{
    let n = s.len() as int;
    assert(!text::is_white(s[0]) && !text::is_white(s[n - 1]));
    text::lemma_stripped(s, text::white(), 0, n);
    assert(s.subrange(0, n) == s);
    assert(text::lowered(s) == s) by {
        assert forall|i: int| 0 <= i < s.len() implies text::lower_char(#[trigger] s[i]) == s[i] by {}
    }
    lemma_dashed_kebab(s);
    assert(!text::equal_to('-')(s[0]) && !text::equal_to('-')(s[n - 1]));
    text::lemma_stripped(s, text::equal_to('-'), 0, n);
}

/// The inbox is kept under its own name.
pub proof fn inbox_is_its_own_slug()
    ensures
        slug_of("Inbox"@) == "inbox"@,
{
    reveal_strlit("Inbox");
    reveal_strlit("inbox");
    let s = "Inbox"@;
    let l = "inbox"@;
    text::lemma_stripped(s, text::white(), 0, 5);
    assert(s.subrange(0, 5) == s);
    assert(text::lowered(s) == l);
    lemma_dashed_kebab(l);
    text::lemma_stripped(l, text::equal_to('-'), 0, 5);
    assert(l.subrange(0, 5) == l);
}

/// Text without a letter or digit goes to the inbox.
pub proof fn no_word_means_inbox(s: Seq<char>)
    requires
        forall|i: int| 0 <= i < s.len() ==> !text::is_alnum(#[trigger] s[i]),
    ensures
        slug_of(s) == "inbox"@,
{
    let (a, b) = lemma_stripped_part(s, text::white());
    let t = text::trimmed(s);
    let l = text::lowered(t);
    assert forall|i: int| 0 <= i < l.len() implies !slug_char(#[trigger] l[i]) by {
        assert(t[i] == s[a + i]);
    }
    lemma_dashed_of_no_word(l);
    let d = dashed(l);
    let n = d.len() as int;
    assert forall|k: int| 0 <= k < n implies text::equal_to('-')(#[trigger] d[k]) by {}
    text::lemma_stripped(d, text::equal_to('-'), n, n);
}

proof fn lemma_dashed_of_no_word(s: Seq<char>)
    requires
        forall|i: int| 0 <= i < s.len() ==> !slug_char(#[trigger] s[i]),
    ensures
        forall|i: int| 0 <= i < dashed(s).len() ==> #[trigger] dashed(s)[i] == '-',
    decreases s.len(),
{
    if s.len() > 0 {
        let d = dashed(s.drop_last());
        assert forall|i: int| 0 <= i < s.len() - 1 implies !slug_char(#[trigger] s.drop_last()[i]) by {
            assert(s.drop_last()[i] == s[i]);
        }
        lemma_dashed_of_no_word(s.drop_last());
        assert(!slug_char(s[s.len() - 1]));
        assert forall|i: int| 0 <= i < dashed(s).len() implies #[trigger] dashed(s)[i] == '-' by {
            assert(i < d.len() ==> dashed(s)[i] == d[i]);
        }
    }
}

/// Words of letters and digits, with one other character between each two, are the slug: in
/// small letters, with dashes between them, cut to 64 characters.
pub proof fn words_make_the_slug(words: Seq<Seq<char>>, between: char)
    requires
        words.len() > 0,
        !text::is_alnum(between),
        forall|w: int| 0 <= w < words.len() ==> (#[trigger] words[w]).len() > 0,
        forall|w: int, i: int|
            0 <= w < words.len() && 0 <= i < words[w].len() ==> text::is_alnum(
                #[trigger] words[w][i],
            ),
    ensures
        ({
            let d = split::joined(words.map_values(|w: Seq<char>| text::lowered(w)), seq!['-']);
            slug_of(split::joined(words, seq![between])) == if d.len() <= 64 {
                d
            } else {
                d.take(64)
            }
        }),
{
    let s = split::joined(words, seq![between]);
    let n = s.len() as int;
    lemma_joined_ends(words, between);
    text::lemma_stripped(s, text::white(), 0, n);
    assert(s.subrange(0, n) == s);
    lemma_words_dashed(words, between);
    let d = split::joined(words.map_values(|w: Seq<char>| text::lowered(w)), seq!['-']);
    assert(!text::equal_to('-')(d[0]) && !text::equal_to('-')(d[n - 1]));
    text::lemma_stripped(d, text::equal_to('-'), 0, n);
    assert(d.subrange(0, n) == d);
}

/// A text of words starts and ends with a letter or digit.
proof fn lemma_joined_ends(words: Seq<Seq<char>>, between: char)
    requires
        words.len() > 0,
        forall|w: int| 0 <= w < words.len() ==> (#[trigger] words[w]).len() > 0,
        forall|w: int, i: int|
            0 <= w < words.len() && 0 <= i < words[w].len() ==> text::is_alnum(
                #[trigger] words[w][i],
            ),
    ensures
        ({
            let s = split::joined(words, seq![between]);
            s.len() > 0 && text::is_alnum(s[0]) && text::is_alnum(s.last()) && !text::is_white(s[0])
                && !text::is_white(s.last())
        }),
    decreases words.len(),
{
    let z = words.last();
    assert(text::is_alnum(words[words.len() - 1][z.len() - 1]));
    if words.len() == 1 {
        assert(text::is_alnum(words[0][0]));
    } else {
        let d = words.drop_last();
        assert forall|w: int| 0 <= w < d.len() implies (#[trigger] d[w]).len() > 0 by {
            assert(d[w] == words[w]);
        }
        assert forall|w: int, i: int| 0 <= w < d.len() && 0 <= i < d[w].len() implies text::is_alnum(
            #[trigger] d[w][i],
        ) by {
            assert(text::is_alnum(words[w][i]));
        }
        lemma_joined_ends(d, between);
        let a = split::joined(d, seq![between]);
        let s = split::joined(words, seq![between]);
        assert(s[0] == a[0]);
        assert(s.last() == z.last());
    }
}

/// Every other character gives way to a dash, and every word to its small letters.
proof fn lemma_words_dashed(words: Seq<Seq<char>>, between: char)
    requires
        words.len() > 0,
        !text::is_alnum(between),
        forall|w: int| 0 <= w < words.len() ==> (#[trigger] words[w]).len() > 0,
        forall|w: int, i: int|
            0 <= w < words.len() && 0 <= i < words[w].len() ==> text::is_alnum(
                #[trigger] words[w][i],
            ),
    ensures
        ({
            let s = split::joined(words, seq![between]);
            let d = split::joined(words.map_values(|w: Seq<char>| text::lowered(w)), seq!['-']);
            &&& dashed(text::lowered(s)) == d
            &&& d.len() == s.len()
            &&& slug_char(d[0])
            &&& slug_char(d.last())
            &&& slug_char(text::lowered(s).last())
        }),
    decreases words.len(),
{
    let f = |w: Seq<char>| text::lowered(w);
    let s = split::joined(words, seq![between]);
    let l = text::lowered(s);
    let z = words.last();
    let lz = text::lowered(z);
    assert forall|i: int| 0 <= i < z.len() implies slug_char(#[trigger] lz[i]) by {
        assert(text::is_alnum(words[words.len() - 1][i]));
    }
    let all = words.map_values(f);
    let none = Seq::<char>::empty();
    if words.len() == 1 {
        lemma_dashed_word(none, lz);
        assert(none + lz == lz);
        assert(dashed(none) == none);
        assert(all[0] == lz);
        assert(slug_char(lz[z.len() - 1]));
    } else {
        let d = words.drop_last();
        assert forall|w: int| 0 <= w < d.len() implies (#[trigger] d[w]).len() > 0 by {
            assert(d[w] == words[w]);
        }
        assert forall|w: int, i: int| 0 <= w < d.len() && 0 <= i < d[w].len() implies text::is_alnum(
            #[trigger] d[w][i],
        ) by {
            assert(text::is_alnum(words[w][i]));
        }
        lemma_words_dashed(d, between);
        let a = split::joined(d, seq![between]);
        let la = text::lowered(a);
        let b = text::lower_char(between);
        assert(l == la.push(b) + lz);
        assert(!slug_char(b));
        assert(la.push(b).drop_last() == la);
        assert(la.push(b)[la.len() - 1] == la.last());
        assert(dashed(la.push(b)) == dashed(la).push('-'));
        lemma_dashed_word(la.push(b), lz);
        assert(all.drop_last() == d.map_values(f));
        assert(all.last() == lz);
        let da = split::joined(d.map_values(f), seq!['-']);
        assert(dashed(l) == da.push('-') + lz);
        assert(da + seq!['-'] + lz == da.push('-') + lz);
        assert(slug_char(lz[z.len() - 1]));
        assert((da.push('-') + lz)[0] == da[0]);
        assert(l.last() == lz.last());
    }
}

/// A word is kept behind whatever stands before it.
proof fn lemma_dashed_word(front: Seq<char>, word: Seq<char>)
    requires
        forall|i: int| 0 <= i < word.len() ==> slug_char(#[trigger] word[i]),
    ensures
        dashed(front + word) == dashed(front) + word,
    decreases word.len(),
{
    if word.len() == 0 {
        assert(front + word == front);
        assert(dashed(front) + word == dashed(front));
    } else {
        let w = word.drop_last();
        assert forall|i: int| 0 <= i < w.len() implies slug_char(#[trigger] w[i]) by {
            assert(w[i] == word[i]);
        }
        lemma_dashed_word(front, w);
        assert((front + word).drop_last() == front + w);
        assert((front + word).last() == word[word.len() - 1]);
        assert(slug_char(word[word.len() - 1]));
        assert((dashed(front) + w).push(word.last()) == dashed(front) + word);
    }
}

/// Texts that come out alike, and end alike, come out alike whatever follows.
proof fn lemma_dashed_follow(u: Seq<char>, v: Seq<char>, q: Seq<char>)
    requires
        u.len() > 0,
        v.len() > 0,
        dashed(u) == dashed(v),
        slug_char(u.last()) == slug_char(v.last()),
    ensures
        dashed(u + q) == dashed(v + q),
    decreases q.len(),
{
    if q.len() == 0 {
        assert(u + q == u);
        assert(v + q == v);
    } else {
        let d = q.drop_last();
        lemma_dashed_follow(u, v, d);
        let a = u + q;
        let b = v + q;
        assert(a.drop_last() == u + d);
        assert(b.drop_last() == v + d);
        assert(a.last() == q.last() && b.last() == q.last());
        if d.len() > 0 {
            assert(a[a.len() - 2] == d.last() && b[b.len() - 2] == d.last());
        } else {
            assert(a[a.len() - 2] == u.last() && b[b.len() - 2] == v.last());
        }
    }
}

/// A character in front that is no word is one dash in front.
proof fn lemma_dashed_front(x: char, s: Seq<char>)
    requires
        !slug_char(x),
        s.len() > 0,
        slug_char(s[0]),
    ensures
        dashed(seq![x] + s) == seq!['-'] + dashed(s),
    decreases s.len(),
{
    let w = seq![x] + s;
    let d = s.drop_last();
    assert(w.drop_last() == seq![x] + d);
    assert(w.last() == s.last());
    if d.len() == 0 {
        let one = seq![x];
        assert(one + d == one);
        assert(one.drop_last() == Seq::<char>::empty());
        assert(dashed(one.drop_last()) == Seq::<char>::empty());
        assert(one.last() == x);
        assert(dashed(one) == Seq::<char>::empty().push('-'));
        assert(dashed(one) == seq!['-']);
        assert(dashed(d) == Seq::<char>::empty());
        assert(seq!['-'].push(s[0]) == seq!['-'] + seq![s[0]]);
        assert(dashed(s) == seq![s[0]]);
    } else {
        lemma_dashed_front(x, d);
        assert(w[w.len() - 2] == s[s.len() - 2]);
        assert((seq!['-'] + dashed(d)).push(s.last()) == seq!['-'] + dashed(d).push(s.last()));
        assert((seq!['-'] + dashed(d)).push('-') == seq!['-'] + dashed(d).push('-'));
    }
}

/// How many characters stand between two words makes no difference, and neither do
/// characters in front of the first word or behind the last, as long as they belong to no
/// word.
pub proof fn only_words_count(a: Seq<char>, x: char, y: char, b: Seq<char>)
    requires
        a.len() > 0,
        b.len() > 0,
        text::is_alnum(a[0]),
        text::is_alnum(a.last()),
        text::is_alnum(b[0]),
        text::is_alnum(b.last()),
        !text::is_alnum(x),
        !text::is_alnum(y),
    ensures
        slug_of(a + seq![x, y] + b) == slug_of(a + seq![x] + b),
        slug_of(seq![x] + a) == slug_of(a),
        slug_of(a + seq![x]) == slug_of(a),
{
    let la = text::lowered(a);
    let lb = text::lowered(b);
    let lx = text::lower_char(x);
    let ly = text::lower_char(y);
    // Between two words.
    let s = a + seq![x, y] + b;
    let t = a + seq![x] + b;
    lemma_trimmed_alnum(s);
    lemma_trimmed_alnum(t);
    let u = la.push(lx).push(ly);
    let v = la.push(lx);
    assert(u.drop_last() == v);
    assert(u[u.len() - 2] == lx);
    assert(dashed(u) == dashed(v));
    lemma_dashed_follow(u, v, lb);
    assert(text::lowered(s) == u + lb);
    assert(text::lowered(t) == v + lb);
    // In front.
    lemma_trimmed_alnum(a);
    assert(slug_char(la[0]) && slug_char(la.last()));
    lemma_ends_of_dashed(la);
    let d = dashed(la);
    let n = d.len() as int;
    let f = seq![x] + a;
    let dash = text::equal_to('-');
    text::lemma_stripped(d, dash, 0, n);
    assert(d.subrange(0, n) == d);
    let m = f.len() as int;
    if text::is_white(x) {
        assert(text::white()(f[0]));
        assert(f[m - 1] == a.last() && f[1] == a[0]);
        text::lemma_stripped(f, text::white(), 1, m);
        assert(f.subrange(1, m) == a);
    } else {
        assert(f[m - 1] == a.last());
        text::lemma_stripped(f, text::white(), 0, m);
        assert(f.subrange(0, m) == f);
        assert(text::lowered(f) == seq![lx] + la);
        lemma_dashed_front(lx, la);
        let e = seq!['-'] + d;
        assert(dash(e[0]) && e[1] == d[0] && e[n] == d[n - 1]);
        text::lemma_stripped(e, dash, 1, n + 1);
        assert(e.subrange(1, n + 1) == d);
    }
    // Behind.
    let g = a + seq![x];
    if text::is_white(x) {
        assert(text::white()(g[m - 1]));
        assert(g[0] == a[0] && g[m - 2] == a.last());
        text::lemma_stripped(g, text::white(), 0, m - 1);
        assert(g.subrange(0, m - 1) == a);
    } else {
        assert(g[0] == a[0] && g[m - 1] == x);
        text::lemma_stripped(g, text::white(), 0, m);
        assert(g.subrange(0, m) == g);
        assert(text::lowered(g) == la.push(lx));
        assert(la.push(lx).drop_last() == la);
        assert(la.push(lx)[la.len() - 1] == la.last());
        assert(dashed(la.push(lx)) == d.push('-'));
        let e = d.push('-');
        assert(dash(e[n]) && e[0] == d[0] && e[n - 1] == d[n - 1]);
        text::lemma_stripped(e, dash, 0, n);
        assert(e.subrange(0, n) == d);
    }
}

/// Text that starts and ends with a letter or digit has nothing to trim.
proof fn lemma_trimmed_alnum(s: Seq<char>)
    requires
        s.len() > 0,
        text::is_alnum(s[0]),
        text::is_alnum(s.last()),
    ensures
        text::trimmed(s) == s,
{
    let n = s.len() as int;
    assert(!text::white()(s[0]) && !text::white()(s[n - 1]));
    text::lemma_stripped(s, text::white(), 0, n);
    assert(s.subrange(0, n) == s);
}

/// Text that starts and ends with a word comes out so.
proof fn lemma_ends_of_dashed(s: Seq<char>)
    requires
        s.len() > 0,
        slug_char(s[0]),
    ensures
        dashed(s).len() > 0,
        dashed(s)[0] == s[0],
        slug_char(s.last()) ==> dashed(s).last() == s.last(),
    decreases s.len(),
{
    let d = s.drop_last();
    if d.len() > 0 {
        lemma_ends_of_dashed(d);
    } else {
        assert(dashed(d) == Seq::<char>::empty());
    }
}

} // verus!
