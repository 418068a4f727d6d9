//! Finding and replacing inside text.

use vstd::prelude::*;
use vstd::string::*;

use crate::split;
use crate::text::{chars_of, string_between};

verus! {

/// `part` stands in `s` at position `i`.
pub open spec fn occurs_at(s: Seq<char>, part: Seq<char>, i: int) -> bool {
    0 <= i && i + part.len() <= s.len() && s.subrange(i, i + part.len()) == part
}

/// `part` stands somewhere in `s`.
pub open spec fn occurs(s: Seq<char>, part: Seq<char>) -> bool {
    exists|i: int| occurs_at(s, part, i)
}

/// The first position from `k` on at which `part` stands in `s`.
pub open spec fn found_from(s: Seq<char>, part: Seq<char>, k: int) -> Option<int>
    decreases s.len() + 1 - k,
{
    if k < 0 || k + part.len() > s.len() {
        None
    } else if occurs_at(s, part, k) {
        Some(k)
    } else {
        found_from(s, part, k + 1)
    }
}

/// The first position at which `part` stands in `s`.
pub open spec fn found(s: Seq<char>, part: Seq<char>) -> Option<int> {
    found_from(s, part, 0)
}

/// The last position of `x` in `s`.
pub open spec fn last_of(s: Seq<char>, x: char) -> Option<int>
    decreases s.len(),
{
    if s.len() == 0 {
        None
    } else if s.last() == x {
        Some(s.len() - 1)
    } else {
        last_of(s.drop_last(), x)
    }
}

/// `s` with every occurrence of `part` replaced by `by`, taken from the left
/// without overlap. `part` is not empty.
pub open spec fn replaced(s: Seq<char>, part: Seq<char>, by: Seq<char>) -> Seq<char>
    decreases s.len(),
{
    match found(s, part) {
        Some(i) => if 0 < part.len() && 0 <= i && i + part.len() <= s.len() {
            s.take(i) + by + replaced(s.skip(i + part.len()), part, by)
        } else {
            s
        },
        None => s,
    }
}

/// Every character of `s` spelled out by `f`.
pub open spec fn spelled(s: Seq<char>, f: spec_fn(char) -> Seq<char>) -> Seq<char>
    decreases s.len(),
{
    if s.len() == 0 {
        Seq::empty()
    } else {
        spelled(s.drop_last(), f) + f(s.last())
    }
}

/// `x` spelled as `by`, and every other character as it is.
pub open spec fn swap_char(x: char, by: Seq<char>) -> spec_fn(char) -> Seq<char> {
    |c: char|
        if c == x {
            by
        } else {
            seq![c]
        }
}

/// `s` with `part` put in before position `i`.
pub open spec fn inserted(s: Seq<char>, i: int, part: Seq<char>) -> Seq<char> {
    s.take(i) + part + s.skip(i)
}

/// `found_from` finds the first occurrence, and misses none.
pub proof fn lemma_found_from(s: Seq<char>, part: Seq<char>, k: int)
    requires
        0 <= k,
    ensures
        match found_from(s, part, k) {
            Some(i) => k <= i && occurs_at(s, part, i) && forall|j: int|
                k <= j < i ==> !occurs_at(s, part, j),
            None => forall|j: int| k <= j ==> !occurs_at(s, part, j),
        },
    decreases s.len() + 1 - k,
{
    if k + part.len() > s.len() {
    } else if occurs_at(s, part, k) {
    } else {
        lemma_found_from(s, part, k + 1);
    }
}

/// `found` succeeds exactly on text that has the part, with its first position.
pub proof fn lemma_found(s: Seq<char>, part: Seq<char>)
    ensures
        match found(s, part) {
            Some(i) => occurs(s, part) && occurs_at(s, part, i) && forall|j: int|
                0 <= j < i ==> !occurs_at(s, part, j),
            None => !occurs(s, part),
        },
{
    lemma_found_from(s, part, 0);
}

/// The position of an `x` with none after it is `last_of`.
pub proof fn lemma_last_of_is(s: Seq<char>, x: char, i: int)
    requires
        0 <= i < s.len(),
        s[i] == x,
        forall|k: int| i < k < s.len() ==> #[trigger] s[k] != x,
    ensures
        last_of(s, x) == Some(i),
    decreases s.len(),
{
    if i < s.len() - 1 {
        let t = s.drop_last();
        assert(s[s.len() - 1] != x);
        assert forall|k: int| i < k < t.len() implies #[trigger] t[k] != x by {
            assert(t[k] == s[k]);
        }
        lemma_last_of_is(t, x, i);
    }
}

/// A text that stands between two others is found in the whole.
pub proof fn lemma_has_middle(a: Seq<char>, part: Seq<char>, b: Seq<char>)
    ensures
        occurs(a + part + b, part),
{
    let s = a + part + b;
    assert(s.subrange(a.len() as int, (a.len() + part.len()) as int) == part);
    assert(occurs_at(s, part, a.len() as int));
}

/// What stands in a part stands in the whole.
pub proof fn lemma_occurs_within(a: Seq<char>, s: Seq<char>, b: Seq<char>, part: Seq<char>)
    requires
        occurs(s, part),
    ensures
        occurs(a + s + b, part),
{
    let w = a + s + b;
    let i = choose|i: int| occurs_at(s, part, i);
    let k = a.len() + i;
    assert(w.subrange(k, k + part.len()) == s.subrange(i, i + part.len()));
    assert(occurs_at(w, part, k));
}

/// What stands in one of two texts stands in the two together.
pub proof fn lemma_occurs_add(s: Seq<char>, t: Seq<char>)
    ensures
        forall|x: Seq<char>| occurs(s, x) || occurs(t, x) ==> #[trigger] occurs(s + t, x),
{
    let none = Seq::<char>::empty();
    assert(none + s + t == s + t);
    assert(s + t + none == s + t);
    assert forall|x: Seq<char>| occurs(s, x) || occurs(t, x) implies #[trigger] occurs(s + t, x) by {
        if occurs(s, x) {
            lemma_occurs_within(none, s, t, x);
        } else {
            lemma_occurs_within(s, t, none, x);
        }
    }
}

/// What stands in a text stands wherever that text stands.
pub proof fn lemma_occurs_trans(s: Seq<char>, t: Seq<char>, part: Seq<char>)
    requires
        occurs(s, t),
        occurs(t, part),
    ensures
        occurs(s, part),
{
    let k = choose|k: int| occurs_at(s, t, k);
    let i = choose|i: int| occurs_at(t, part, i);
    let m = s.subrange(k, k + t.len());
    assert(m.subrange(i, i + part.len()) == s.subrange(k + i, k + i + part.len()));
    assert(occurs_at(s, part, k + i));
}

/// The end of a text stands in it.
pub proof fn lemma_occurs_end(a: Seq<char>, b: Seq<char>, c: Seq<char>)
    ensures
        occurs(a + b + c, b + c),
{
    let s = a + b + c;
    let t = b + c;
    let n = a.len() as int;
    assert(s.subrange(n, n + t.len()) =~= t);
    assert(occurs_at(s, t, n));
}

/// A text stands in itself.
pub proof fn lemma_occurs_itself(s: Seq<char>)
    ensures
        occurs(s, s),
{
    assert(s.subrange(0, s.len() as int) == s);
    assert(occurs_at(s, s, 0));
}

/// Every piece stands in the text.
pub proof fn lemma_piece_occurs(s: Seq<char>, x: char, i: int)
    requires
        0 <= i < split::pieces(s, x).len(),
    ensures
        occurs(s, split::pieces(s, x)[i]),
    decreases s.len(),
{
    let f = split::first_of(s, x);
    let p = split::pieces(s, x)[i];
    split::lemma_first_of(s, x);
    if f < s.len() {
        let t = s.skip(f + 1);
        if i == 0 {
            assert(s.subrange(0, f) == s.take(f));
            assert(occurs_at(s, p, 0));
        } else {
            lemma_piece_occurs(t, x, i - 1);
            let a = choose|a: int| occurs_at(t, p, a);
            assert(s.subrange(a + f + 1, a + f + 1 + p.len()) == t.subrange(a, a + p.len()));
            assert(occurs_at(s, p, a + f + 1));
        }
    } else {
        assert(s.subrange(0, s.len() as int) == s);
        assert(occurs_at(s, p, 0));
    }
}

/// Every part of a joined text stands in it.
pub proof fn lemma_joined_has(parts: Seq<Seq<char>>, sep: Seq<char>, i: int)
    requires
        0 <= i < parts.len(),
    ensures
        occurs(split::joined(parts, sep), parts[i]),
    decreases parts.len(),
{
    if parts.len() == 1 {
        lemma_occurs_itself(parts[0]);
    } else {
        let d = parts.drop_last();
        let j = split::joined(d, sep);
        let all = split::joined(parts, sep);
        if i < d.len() {
            lemma_joined_has(d, sep, i);
            let none = Seq::<char>::empty();
            lemma_occurs_within(none, j, sep + parts.last(), parts[i]);
            assert(none + j + (sep + parts.last()) == all);
        } else {
            let none = Seq::<char>::empty();
            lemma_has_middle(j + sep, parts.last(), none);
            assert(j + sep + parts.last() + none == all);
        }
    }
}

/// Spelling out one more character.
pub proof fn lemma_spelled_push(s: Seq<char>, c: char, f: spec_fn(char) -> Seq<char>)
    ensures
        spelled(s.push(c), f) == spelled(s, f) + f(c),
{
    assert(s.push(c).drop_last() == s);
}

/// Spelling out goes piece by piece.
pub proof fn lemma_spelled_add(s: Seq<char>, t: Seq<char>, f: spec_fn(char) -> Seq<char>)
    ensures
        spelled(s + t, f) == spelled(s, f) + spelled(t, f),
    decreases t.len(),
{
    if t.len() == 0 {
        assert(s + t == s);
        assert(spelled(s, f) + Seq::<char>::empty() == spelled(s, f));
    } else {
        lemma_spelled_add(s, t.drop_last(), f);
        assert((s + t).drop_last() == s + t.drop_last());
        assert(spelled(s, f) + (spelled(t.drop_last(), f) + f(t.last())) == (spelled(s, f)
            + spelled(t.drop_last(), f)) + f(t.last()));
    }
}

/// Replacing one character is spelling it otherwise.
pub proof fn lemma_replaced_char(s: Seq<char>, x: char, by: Seq<char>)
    ensures
        replaced(s, seq![x], by) == spelled(s, swap_char(x, by)),
    decreases s.len(),
{
    let f = swap_char(x, by);
    lemma_found(s, seq![x]);
    match found(s, seq![x]) {
        Some(i) => {
            let head = s.take(i);
            let tail = s.skip(i + 1);
            lemma_replaced_char(tail, x, by);
            assert forall|k: int| 0 <= k < head.len() implies #[trigger] head[k] != x by {
                if s[k] == x {
                    assert(s.subrange(k, k + 1) == seq![x]);
                    assert(occurs_at(s, seq![x], k));
                }
            }
            lemma_spelled_plain(head, x, f);
            assert(s.subrange(i, i + 1)[0] == s[i]);
            assert(s == head.push(x) + tail);
            lemma_spelled_push(head, x, f);
            lemma_spelled_add(head.push(x), tail, f);
        },
        None => {
            assert forall|k: int| 0 <= k < s.len() implies #[trigger] s[k] != x by {
                if s[k] == x {
                    assert(s.subrange(k, k + 1) == seq![x]);
                    assert(occurs_at(s, seq![x], k));
                }
            }
            lemma_spelled_plain(s, x, f);
        },
    }
}

/// Characters that stand for themselves are spelled as they are.
pub proof fn lemma_spelled_plain(s: Seq<char>, x: char, f: spec_fn(char) -> Seq<char>)
    requires
        forall|k: int| 0 <= k < s.len() ==> #[trigger] s[k] != x,
        forall|c: char| c != x ==> #[trigger] f(c) == seq![c],
    ensures
        spelled(s, f) == s,
    decreases s.len(),
{
    if s.len() > 0 {
        let d = s.drop_last();
        assert forall|k: int| 0 <= k < d.len() implies #[trigger] d[k] != x by {
            assert(d[k] == s[k]);
        }
        lemma_spelled_plain(d, x, f);
        assert(s[s.len() - 1] != x);
        assert(d + seq![s.last()] == s);
    }
}

/// Whether the characters `w` stand in `v` at position `i`.
fn stands_at(v: &Vec<char>, w: &Vec<char>, i: usize) -> (r: bool)
    requires
        i + w@.len() <= v@.len(),
    ensures
        r == occurs_at(v@, w@, i as int),
{
    let mut k: usize = 0;
    while k < w.len()
        invariant
            k <= w@.len(),
            i + w@.len() <= v.len(),
            forall|j: int| 0 <= j < k ==> v@[i + j] == w@[j],
        decreases w@.len() - k,
    {
        if v[i + k] != w[k] {
            assert(v@.subrange(i as int, i + w@.len())[k as int] != w@[k as int]);
            return false;
        }
        k = k + 1;
    }
    assert(v@.subrange(i as int, i + w@.len()) == w@);
    true
}

/// The first position from `k` on at which `w` stands in `v`.
pub fn find_chars(v: &Vec<char>, w: &Vec<char>, k: usize) -> (r: Option<usize>)
    requires
        k <= v@.len(),
    ensures
        match r {
            Some(i) => found_from(v@, w@, k as int) == Some(i as int) && k <= i && i + w@.len()
                <= v.len(),
            None => found_from(v@, w@, k as int) is None,
        },
{
    if w.len() > v.len() {
        return None;
    }
    let last: usize = v.len() - w.len();
    let mut i: usize = k;
    while i <= last
        invariant
            k <= i <= v@.len(),
            last == v.len() - w.len(),
            found_from(v@, w@, k as int) == found_from(v@, w@, i as int),
        decreases last + 1 - i,
    {
        if stands_at(v, w, i) {
            return Some(i);
        }
        if i == last {
            assert(found_from(v@, w@, i + 1) is None);
            return None;
        }
        i = i + 1;
    }
    None
}

/// The position, in characters, at which `part` first stands in `s`.
pub fn find(s: &str, part: &str) -> (r: Option<usize>)
    ensures
        match r {
            Some(i) => found(s@, part@) == Some(i as int) && i + part@.len() <= s@.len() && i
                + part@.len() <= usize::MAX,
            None => found(s@, part@) is None,
        },
{
    let v = chars_of(s);
    let w = chars_of(part);
    find_chars(&v, &w, 0)
}

/// Whether `part` stands somewhere in `s`.
pub fn contains(s: &str, part: &str) -> (r: bool)
    ensures
        r == occurs(s@, part@),
{
    proof {
        lemma_found(s@, part@);
    }
    find(s, part).is_some()
}

/// The last position of `x` in `s`.
pub fn find_last(s: &str, x: char) -> (r: Option<usize>)
    ensures
        match r {
            Some(i) => last_of(s@, x) == Some(i as int) && i < s@.len(),
            None => last_of(s@, x) is None,
        },
{
    let v = chars_of(s);
    let mut j: usize = v.len();
    assert(s@.take(j as int) == s@);
    while j > 0
        invariant
            v@ == s@,
            j <= v@.len(),
            last_of(s@, x) == last_of(s@.take(j as int), x),
        decreases j,
    {
        assert(s@.take(j as int).last() == s@[j - 1]);
        assert(s@.take(j as int).drop_last() == s@.take(j - 1));
        if v[j - 1] == x {
            return Some(j - 1);
        }
        j = j - 1;
    }
    None
}

/// `s` with every occurrence of `part` replaced by `by`.
pub fn replace(s: &str, part: &str, by: &str) -> (r: String)
    requires
        part@.len() > 0,
    ensures
        r@ == replaced(s@, part@, by@),
{
    let v = chars_of(s);
    let w = chars_of(part);
    let mut out = String::new();
    let mut start: usize = 0;
    assert(s@.skip(0) == s@);
    assert(out@ + replaced(s@, part@, by@) == replaced(s@, part@, by@));
    loop
        invariant
            v@ == s@,
            w@ == part@,
            part@.len() > 0,
            start <= v@.len(),
            out@ + replaced(s@.skip(start as int), part@, by@) == replaced(s@, part@, by@),
        decreases v@.len() - start,
    {
        let ghost rest = s@.skip(start as int);
        proof {
            lemma_found_shift(s@, part@, start as int, start as int);
        }
        match find_chars(&v, &w, start) {
            Some(i) => {
                let head = string_between(&v, start, i);
                let ghost before = out@;
                out.append(head.as_str());
                out.append(by);
                let next: usize = i + w.len();
                proof {
                    assert(found(rest, part@) == Some(i - start));
                    assert(rest.take(i - start) == head@);
                    assert(rest.skip(i - start + part@.len()) == s@.skip(next as int));
                    let tail = replaced(s@.skip(next as int), part@, by@);
                    assert(before + (head@ + by@ + tail) == (before + head@ + by@) + tail);
                }
                start = next;
            },
            None => {
                let head = string_between(&v, start, v.len());
                assert(head@ == rest);
                out.append(head.as_str());
                return out;
            },
        }
    }
}

/// Searching from `k` on is searching in what lies from `a` on.
proof fn lemma_found_shift(s: Seq<char>, part: Seq<char>, a: int, k: int)
    requires
        0 <= a <= k,
        a <= s.len(),
    ensures
        found_from(s, part, k) == match found_from(s.skip(a), part, k - a) {
            Some(i) => Some(i + a),
            None => None,
        },
    decreases s.len() + 1 - k,
{
    if k + part.len() > s.len() {
    } else {
        assert(s.subrange(k, k + part.len()) == s.skip(a).subrange(k - a, k - a + part.len()));
        if !occurs_at(s, part, k) {
            lemma_found_shift(s, part, a, k + 1);
        }
    }
}

/// `s` with `part` put in before its `i`-th character.
pub fn insert_at(s: &str, i: usize, part: &str) -> (r: String)
    requires
        i <= s@.len(),
    ensures
        r@ == inserted(s@, i as int, part@),
{
    let v = chars_of(s);
    let mut out = string_between(&v, 0, i);
    out.append(part);
    out.append(string_between(&v, i, v.len()).as_str());
    assert(s@.subrange(0, i as int) == s@.take(i as int));
    assert(s@.subrange(i as int, s@.len() as int) == s@.skip(i as int));
    out
}

} // verus!
