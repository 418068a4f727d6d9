//! Cutting text into lines, pieces and words, and joining them again.

use vstd::prelude::*;
use vstd::string::*;

use crate::text;
use crate::text::{chars_of, is_white_char, string_between};

verus! {

/// The position of the first `x` in `s`, or the length of `s`.
pub open spec fn first_of(s: Seq<char>, x: char) -> int
    decreases s.len(),
{
    if s.len() == 0 || s[0] == x {
        0
    } else {
        1 + first_of(s.drop_first(), x)
    }
}

/// The length of the leading part of `s` without white space.
pub open spec fn word_len(s: Seq<char>) -> int
    decreases s.len(),
{
    if s.len() == 0 || text::is_white(s[0]) {
        0
    } else {
        1 + word_len(s.drop_first())
    }
}

/// `s` without one carriage return at its end.
pub open spec fn without_cr(s: Seq<char>) -> Seq<char> {
    if s.len() > 0 && s.last() == '\r' {
        s.drop_last()
    } else {
        s
    }
}

/// The lines of `s`: each ends at `\n` or `\r\n`, which are left out, and what
/// follows the last line end counts as a line when it is not empty.
pub open spec fn lines_of(s: Seq<char>) -> Seq<Seq<char>>
    decreases s.len(),
{
    if s.len() == 0 {
        Seq::empty()
    } else {
        let i = first_of(s, '\n');
        if 0 <= i < s.len() {
            seq![without_cr(s.take(i))] + lines_of(s.skip(i + 1))
        } else {
            seq![s]
        }
    }
}

/// The pieces of `s` between the characters `x`; there is always one.
pub open spec fn pieces(s: Seq<char>, x: char) -> Seq<Seq<char>>
    decreases s.len(),
{
    let i = first_of(s, x);
    if 0 <= i < s.len() {
        seq![s.take(i)] + pieces(s.skip(i + 1), x)
    } else {
        seq![s]
    }
}

/// The maximal parts of `s` without white space.
pub open spec fn words_of(s: Seq<char>) -> Seq<Seq<char>>
    decreases s.len(),
{
    if s.len() == 0 {
        Seq::empty()
    } else if text::is_white(s[0]) {
        words_of(s.drop_first())
    } else {
        let n = word_len(s);
        if 0 < n <= s.len() {
            seq![s.take(n)] + words_of(s.skip(n))
        } else {
            Seq::empty()
        }
    }
}

/// The parts one after the other, with `sep` between each two.
pub open spec fn joined(parts: Seq<Seq<char>>, sep: Seq<char>) -> Seq<char>
    decreases parts.len(),
{
    if parts.len() == 0 {
        Seq::empty()
    } else if parts.len() == 1 {
        parts[0]
    } else {
        joined(parts.drop_last(), sep) + sep + parts.last()
    }
}

/// What comes before the first `x`, and what comes after it.
pub open spec fn cut(s: Seq<char>, x: char) -> Option<(Seq<char>, Seq<char>)> {
    let i = first_of(s, x);
    if i < s.len() {
        Some((s.take(i), s.skip(i + 1)))
    } else {
        None
    }
}

/// `first_of` points at an `x` with none before it.
pub proof fn lemma_first_of(s: Seq<char>, x: char)
    ensures
        0 <= first_of(s, x) <= s.len(),
        first_of(s, x) < s.len() ==> s[first_of(s, x)] == x,
        forall|k: int| 0 <= k < first_of(s, x) ==> #[trigger] s[k] != x,
    decreases s.len(),
{
    if s.len() > 0 && s[0] != x {
        let t = s.drop_first();
        lemma_first_of(t, x);
        assert forall|k: int| 0 <= k < first_of(s, x) implies #[trigger] s[k] != x by {
            if k > 0 {
                assert(s[k] == t[k - 1]);
            }
        }
    }
}

/// The position with an `x` and none before it is `first_of`.
pub proof fn lemma_first_of_is(s: Seq<char>, x: char, i: int)
    requires
        0 <= i <= s.len(),
        forall|k: int| 0 <= k < i ==> #[trigger] s[k] != x,
        i < s.len() ==> s[i] == x,
    ensures
        first_of(s, x) == i,
{
    lemma_first_of(s, x);
    let j = first_of(s, x);
    if j < i {
        assert(s[j] != x);
    } else if i < j {
        assert(s[i] != x);
    }
}

/// The position of the first white space is `word_len`.
pub proof fn lemma_word_len_is(s: Seq<char>, i: int)
    requires
        0 <= i <= s.len(),
        forall|k: int| 0 <= k < i ==> !text::is_white(#[trigger] s[k]),
        i < s.len() ==> text::is_white(s[i]),
    ensures
        word_len(s) == i,
    decreases i,
{
    if i > 0 {
        assert(!text::is_white(s[0]));
        let t = s.drop_first();
        assert forall|k: int| 0 <= k < i - 1 implies !text::is_white(#[trigger] t[k]) by {
            assert(t[k] == s[k + 1]);
        }
        lemma_word_len_is(t, i - 1);
    }
}

/// The pieces of two texts with an `x` between them.
pub proof fn lemma_pieces_add(s: Seq<char>, t: Seq<char>, x: char)
    ensures
        pieces(s + seq![x] + t, x) == pieces(s, x) + pieces(t, x),
    decreases s.len(),
{
    let w = s + seq![x] + t;
    let i = first_of(s, x);
    lemma_first_of(s, x);
    assert(w[s.len() as int] == x);
    assert forall|k: int| 0 <= k < i implies #[trigger] w[k] != x by {
        assert(w[k] == s[k]);
    }
    assert(i < s.len() ==> w[i] == s[i]);
    lemma_first_of_is(w, x, i);
    assert(w.take(i) == s.take(i));
    if i < s.len() {
        lemma_pieces_add(s.skip(i + 1), t, x);
        assert(w.skip(i + 1) == s.skip(i + 1) + seq![x] + t);
        assert(seq![s.take(i)] + (pieces(s.skip(i + 1), x) + pieces(t, x)) == (seq![s.take(i)]
            + pieces(s.skip(i + 1), x)) + pieces(t, x));
    } else {
        assert(s.take(i) == s);
        assert(w.skip(i + 1) == t);
    }
}

/// A last piece without `x` in it stands behind all others.
pub proof fn lemma_pieces_last(s: Seq<char>, last: Seq<char>, x: char)
    requires
        forall|k: int| 0 <= k < last.len() ==> #[trigger] last[k] != x,
    ensures
        pieces(s + seq![x] + last, x) == pieces(s, x).push(last),
{
    lemma_pieces_add(s, last, x);
    lemma_first_of_is(last, x, last.len() as int);
    assert(pieces(s, x) + seq![last] == pieces(s, x).push(last));
}

/// Joined pieces are cut apart as they were.
pub proof fn lemma_pieces_joined(parts: Seq<Seq<char>>, x: char)
    requires
        parts.len() > 0,
        forall|w: int, i: int|
            0 <= w < parts.len() && 0 <= i < parts[w].len() ==> #[trigger] parts[w][i] != x,
    ensures
        pieces(joined(parts, seq![x]), x) == parts,
    decreases parts.len(),
{
    let last = parts.last();
    assert forall|k: int| 0 <= k < last.len() implies #[trigger] last[k] != x by {
        assert(parts[parts.len() - 1][k] != x);
    }
    if parts.len() == 1 {
        lemma_first_of_is(last, x, last.len() as int);
        assert(parts == seq![last]);
    } else {
        let d = parts.drop_last();
        assert forall|w: int, i: int| 0 <= w < d.len() && 0 <= i < d[w].len() implies #[trigger] d[w][i]
            != x by {
            assert(parts[w][i] != x);
        }
        lemma_pieces_joined(d, x);
        lemma_pieces_last(joined(d, seq![x]), last, x);
        assert(d.push(last) == parts);
    }
}

/// Adding a part to a list that is being joined.
pub proof fn lemma_joined_push(parts: Seq<Seq<char>>, sep: Seq<char>, last: Seq<char>)
    ensures
        joined(parts.push(last), sep) == if parts.len() == 0 {
            last
        } else {
            joined(parts, sep) + sep + last
        },
{
    assert(parts.push(last).drop_last() == parts);
}

/// The lines of `s`.
pub fn lines(s: &str) -> (r: Vec<String>)
    ensures
        text::views(r@) == lines_of(s@),
{
    let v = chars_of(s);
    let mut out: Vec<String> = Vec::new();
    let mut start: usize = 0;
    assert(s@.skip(0) == s@);
    assert(text::views(out@) + lines_of(s@) == lines_of(s@));
    while start < v.len()
        invariant
            v@ == s@,
            start <= v@.len(),
            text::views(out@) + lines_of(s@.skip(start as int)) == lines_of(s@),
        decreases v@.len() - start,
    {
        let ghost rest = s@.skip(start as int);
        let mut i: usize = start;
        while i < v.len() && v[i] != '\n'
            invariant
                v@ == s@,
                start <= i <= v@.len(),
                rest == s@.skip(start as int),
                forall|k: int| 0 <= k < i - start ==> #[trigger] rest[k] != '\n',
            decreases v@.len() - i,
        {
            i = i + 1;
        }
        proof {
            lemma_first_of_is(rest, '\n', i - start);
        }
        let ghost before = out@;
        if i < v.len() {
            let mut e: usize = i;
            if e > start && v[e - 1] == '\r' {
                e = e - 1;
            }
            let line = string_between(&v, start, e);
            proof {
                let raw = rest.take(i - start);
                assert(raw == s@.subrange(start as int, i as int));
                assert(line@ == without_cr(raw));
                assert(rest.skip(i - start + 1) == s@.skip(i + 1));
            }
            out.push(line);
            assert(text::views(out@) == text::views(before).push(line@));
            assert(text::views(out@) + lines_of(s@.skip(i + 1)) == text::views(before) + (
            seq![line@] + lines_of(s@.skip(i + 1))));
            start = i + 1;
        } else {
            let line = string_between(&v, start, i);
            assert(line@ == rest);
            out.push(line);
            assert(text::views(out@) == text::views(before).push(rest));
            assert(text::views(out@) + Seq::<Seq<char>>::empty() == text::views(before) + seq![rest]);
            start = i;
        }
    }
    assert(text::views(out@) + Seq::<Seq<char>>::empty() == text::views(out@));
    out
}

/// The pieces of `s` between the characters `x`.
pub fn split(s: &str, x: char) -> (r: Vec<String>)
    ensures
        text::views(r@) == pieces(s@, x),
        r@.len() > 0,
{
    let v = chars_of(s);
    let mut out: Vec<String> = Vec::new();
    let mut start: usize = 0;
    assert(s@.skip(0) == s@);
    assert(text::views(out@) + pieces(s@, x) == pieces(s@, x));
    loop
        invariant
            v@ == s@,
            start <= v@.len(),
            text::views(out@) + pieces(s@.skip(start as int), x) == pieces(s@, x),
        decreases v@.len() - start,
    {
        let ghost rest = s@.skip(start as int);
        let mut i: usize = start;
        while i < v.len() && v[i] != x
            invariant
                v@ == s@,
                start <= i <= v@.len(),
                rest == s@.skip(start as int),
                forall|k: int| 0 <= k < i - start ==> #[trigger] rest[k] != x,
            decreases v@.len() - i,
        {
            i = i + 1;
        }
        proof {
            lemma_first_of_is(rest, x, i - start);
        }
        let ghost before = out@;
        let piece = string_between(&v, start, i);
        out.push(piece);
        assert(text::views(out@) == text::views(before).push(piece@));
        if i < v.len() {
            proof {
                assert(rest.take(i - start) == piece@);
                assert(rest.skip(i - start + 1) == s@.skip(i + 1));
                assert(text::views(out@) + pieces(s@.skip(i + 1), x) == text::views(before) + (
                seq![piece@] + pieces(s@.skip(i + 1), x)));
            }
            start = i + 1;
        } else {
            assert(piece@ == rest);
            assert(text::views(out@) == text::views(before) + seq![rest]);
            return out;
        }
    }
}

/// What comes before the first `x`, and what comes after it.
pub fn split_once(s: &str, x: char) -> (r: Option<(String, String)>)
    ensures
        match r {
            Some(p) => cut(s@, x) == Some((p.0@, p.1@)),
            None => cut(s@, x) is None,
        },
{
    let v = chars_of(s);
    let n: usize = v.len();
    let mut i: usize = 0;
    while i < n && v[i] != x
        invariant
            v@ == s@,
            n == v@.len(),
            i <= n,
            forall|k: int| 0 <= k < i ==> #[trigger] s@[k] != x,
        decreases n - i,
    {
        i = i + 1;
    }
    proof {
        lemma_first_of_is(s@, x, i as int);
    }
    if i < n {
        assert(s@.subrange(0, i as int) == s@.take(i as int));
        assert(s@.subrange(i + 1, n as int) == s@.skip(i + 1));
        Some((string_between(&v, 0, i), string_between(&v, i + 1, n)))
    } else {
        None
    }
}

/// The maximal parts of `s` without white space.
pub fn words(s: &str) -> (r: Vec<String>)
    ensures
        text::views(r@) == words_of(s@),
{
    let v = chars_of(s);
    let mut out: Vec<String> = Vec::new();
    let mut start: usize = 0;
    assert(s@.skip(0) == s@);
    assert(text::views(out@) + words_of(s@) == words_of(s@));
    while start < v.len()
        invariant
            v@ == s@,
            start <= v@.len(),
            text::views(out@) + words_of(s@.skip(start as int)) == words_of(s@),
        decreases v@.len() - start,
    {
        let ghost rest = s@.skip(start as int);
        if is_white_char(v[start]) {
            assert(rest.drop_first() == s@.skip(start + 1));
            start = start + 1;
        } else {
            let mut i: usize = start;
            while i < v.len() && !is_white_char(v[i])
                invariant
                    v@ == s@,
                    start <= i <= v@.len(),
                    rest == s@.skip(start as int),
                    forall|k: int| 0 <= k < i - start ==> !text::is_white(#[trigger] rest[k]),
                decreases v@.len() - i,
            {
                i = i + 1;
            }
            proof {
                lemma_word_len_is(rest, i - start);
                assert(!text::is_white(rest[0]));
                assert(i > start);
            }
            let ghost before = out@;
            let word = string_between(&v, start, i);
            out.push(word);
            proof {
                assert(rest.take(i - start) == word@);
                assert(rest.skip(i - start) == s@.skip(i as int));
                assert(text::views(out@) == text::views(before).push(word@));
                assert(text::views(out@) + words_of(s@.skip(i as int)) == text::views(before) + (
                seq![word@] + words_of(s@.skip(i as int))));
            }
            start = i;
        }
    }
    assert(text::views(out@) + Seq::<Seq<char>>::empty() == text::views(out@));
    out
}

/// The parts one after the other, with `sep` between each two.
pub fn join(parts: &Vec<String>, sep: &str) -> (r: String)
    ensures
        r@ == joined(text::views(parts@), sep@),
{
    let mut out = String::new();
    let mut i: usize = 0;
    let ghost all = text::views(parts@);
    while i < parts.len()
        invariant
            i <= parts@.len(),
            all == text::views(parts@),
            out@ == joined(all.take(i as int), sep@),
        decreases parts@.len() - i,
    {
        proof {
            lemma_joined_push(all.take(i as int), sep@, all[i as int]);
            assert(all.take(i + 1) == all.take(i as int).push(all[i as int]));
        }
        if i > 0 {
            out.append(sep);
        }
        out.append(parts[i].as_str());
        assert(out@ == joined(all.take(i + 1), sep@));
        i = i + 1;
    }
    assert(all.take(i as int) == all);
    out
}

/// A line ends at the first newline, which is left out together with one carriage return
/// before it, and the rest is cut in the same way.
pub proof fn lines_end_at_newlines(line: Seq<char>, rest: Seq<char>)
    requires
        forall|i: int| 0 <= i < line.len() ==> #[trigger] line[i] != '\n',
        line.len() > 0 ==> line.last() != '\r',
    ensures
        lines_of(line + seq!['\n'] + rest) == seq![line] + lines_of(rest),
        lines_of(line + seq!['\r', '\n'] + rest) == seq![line] + lines_of(rest),
        line.len() > 0 ==> lines_of(line) == seq![line],
{
    let a = line + seq!['\n'] + rest;
    let b = line + seq!['\r', '\n'] + rest;
    let n = line.len() as int;
    assert forall|k: int| 0 <= k < n implies #[trigger] a[k] != '\n' by {
        assert(a[k] == line[k]);
    }
    lemma_first_of_is(a, '\n', n);
    assert(a.take(n) == line);
    assert(a.skip(n + 1) == rest);
    assert forall|k: int| 0 <= k < n + 1 implies #[trigger] b[k] != '\n' by {
        if k < n {
            assert(b[k] == line[k]);
        }
    }
    lemma_first_of_is(b, '\n', n + 1);
    assert(b.take(n + 1) == line.push('\r'));
    assert(line.push('\r').drop_last() == line);
    assert(b.skip(n + 2) == rest);
    lemma_first_of_is(line, '\n', n);
}

/// A word ends at the first white space, and the rest is cut in the same way; white space
/// in front is passed over.
pub proof fn words_end_at_white_space(word: Seq<char>, space: char, rest: Seq<char>)
    requires
        word.len() > 0,
        forall|i: int| 0 <= i < word.len() ==> !text::is_white(#[trigger] word[i]),
        text::is_white(space),
    ensures
        words_of(word + seq![space] + rest) == seq![word] + words_of(rest),
        words_of(seq![space] + rest) == words_of(rest),
        words_of(word) == seq![word],
{
    let a = word + seq![space] + rest;
    let n = word.len() as int;
    assert forall|k: int| 0 <= k < n implies !text::is_white(#[trigger] a[k]) by {
        assert(a[k] == word[k]);
    }
    assert(a[0] == word[0]);
    lemma_word_len_is(a, n);
    assert(a.take(n) == word);
    let b = seq![space] + rest;
    assert(a.skip(n) == b);
    assert(b.drop_first() == rest);
    assert(b[0] == space);
    assert(words_of(b) == words_of(rest));
    assert(!text::is_white(a[0]));
    assert(words_of(a) == seq![word] + words_of(b));
    lemma_word_len_is(word, n);
    assert(word.take(n) == word);
    assert(word.skip(n) == Seq::<char>::empty());
    assert(words_of(word.skip(n)) == Seq::<Seq<char>>::empty());
    assert(seq![word] + Seq::<Seq<char>>::empty() == seq![word]);
}

} // verus!
