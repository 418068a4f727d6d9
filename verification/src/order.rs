//! The order of texts, and sorting by it.

use vstd::prelude::*;
use vstd::seq_lib::*;
use vstd::string::*;

use crate::text;

verus! {

/// `a` comes before `b` in the order of a dictionary, or is the same. Characters are
/// ordered by their number, so texts are ordered as their UTF-8 bytes are.
pub open spec fn lex_le(a: Seq<char>, b: Seq<char>) -> bool
    decreases a.len(),
{
    if a.len() == 0 {
        true
    } else if b.len() == 0 {
        false
    } else {
        a[0] < b[0] || (a[0] == b[0] && lex_le(a.drop_first(), b.drop_first()))
    }
}

/// Each text comes before every later one, or is the same.
pub open spec fn sorted(s: Seq<Seq<char>>) -> bool {
    forall|a: int, b: int| 0 <= a <= b < s.len() ==> lex_le(#[trigger] s[a], #[trigger] s[b])
}

proof fn lemma_lex_total(a: Seq<char>, b: Seq<char>)
    ensures
        lex_le(a, b) || lex_le(b, a),
    decreases a.len(),
{
    if a.len() > 0 && b.len() > 0 && a[0] == b[0] {
        lemma_lex_total(a.drop_first(), b.drop_first());
    }
}

proof fn lemma_lex_trans(a: Seq<char>, b: Seq<char>, c: Seq<char>)
    requires
        lex_le(a, b),
        lex_le(b, c),
    ensures
        lex_le(a, c),
    decreases a.len(),
{
    if a.len() > 0 && b.len() > 0 && c.len() > 0 && a[0] == b[0] && b[0] == c[0] {
        lemma_lex_trans(a.drop_first(), b.drop_first(), c.drop_first());
    }
}

proof fn lemma_lex_refl(a: Seq<char>)
    ensures
        lex_le(a, a),
    decreases a.len(),
{
    if a.len() > 0 {
        lemma_lex_refl(a.drop_first());
    }
}

/// Whether `a` comes before `b`, or is the same.
pub fn not_after(a: &str, b: &str) -> (r: bool)
    ensures
        r == lex_le(a@, b@),
{
    let v = text::chars_of(a);
    let w = text::chars_of(b);
    let mut i: usize = 0;
    assert(a@.skip(0) == a@ && b@.skip(0) == b@);
    while i < v.len()
        invariant
            v@ == a@,
            w@ == b@,
            i <= v@.len(),
            i <= w@.len(),
            lex_le(a@, b@) == lex_le(a@.skip(i as int), b@.skip(i as int)),
        decreases v@.len() - i,
    {
        let ghost x = a@.skip(i as int);
        let ghost y = b@.skip(i as int);
        assert(x[0] == a@[i as int]);
        if i >= w.len() {
            return false;
        }
        assert(y[0] == b@[i as int]);
        if v[i] < w[i] {
            return true;
        }
        if v[i] > w[i] {
            return false;
        }
        assert(x.drop_first() == a@.skip(i + 1));
        assert(y.drop_first() == b@.skip(i + 1));
        i = i + 1;
    }
    true
}

/// Puts `s` in its place among sorted texts.
fn place(v: &mut Vec<String>, s: String)
    requires
        sorted(text::views(old(v)@)),
    ensures
        sorted(text::views(final(v)@)),
        text::views(final(v)@).to_multiset() == text::views(old(v)@).to_multiset().insert(s@),
{
    let ghost before = text::views(v@);
    let mut k: usize = v.len();
    while k > 0 && !not_after(v[k - 1].as_str(), s.as_str())
        invariant
            k <= v@.len(),
            before == text::views(v@),
            sorted(before),
            forall|i: int| k <= i < before.len() ==> lex_le(s@, #[trigger] before[i]),
        decreases k,
    {
        proof {
            assert(before[k - 1] == v@[k - 1]@);
            lemma_lex_total(s@, before[k - 1]);
        }
        k = k - 1;
    }
    let ghost x = s@;
    proof {
        assert(k > 0 ==> before[k - 1] == v@[k - 1]@);
    }
    v.insert(k, s);
    proof {
        let after = text::views(v@);
        assert(after == before.insert(k as int, x));
        assert(after.remove(k as int) == before);
        to_multiset_remove(after, k as int);
        after.to_multiset_ensures();
        assert(after[k as int] == x);
        assert(after.contains(x));
        assert(after.to_multiset() =~= before.to_multiset().insert(x));
        assert forall|a: int, b: int| 0 <= a <= b < after.len() implies lex_le(
            #[trigger] after[a],
            #[trigger] after[b],
        ) by {
            lemma_lex_refl(x);
            assert(a < k ==> after[a] == before[a]);
            assert(a > k ==> after[a] == before[a - 1]);
            assert(b < k ==> after[b] == before[b]);
            assert(b > k ==> after[b] == before[b - 1]);
            if a < k && b == k {
                assert(lex_le(before[a], before[k - 1]));
                lemma_lex_trans(before[a], before[k - 1], x);
            }
        }
    }
}

/// The same texts in order.
pub fn sort(texts: Vec<String>) -> (r: Vec<String>)
    ensures
        sorted(text::views(r@)),
        text::views(r@).to_multiset() == text::views(texts@).to_multiset(),
{
    let mut out: Vec<String> = Vec::new();
    let mut i: usize = 0;
    let ghost all = text::views(texts@);
    assert(text::views(out@) == all.take(0));
    while i < texts.len()
        invariant
            i <= texts@.len(),
            all == text::views(texts@),
            sorted(text::views(out@)),
            text::views(out@).to_multiset() == all.take(i as int).to_multiset(),
        decreases texts@.len() - i,
    {
        proof {
            to_multiset_build(all.take(i as int), all[i as int]);
            assert(all.take(i + 1) == all.take(i as int).push(all[i as int]));
        }
        place(&mut out, texts[i].clone());
        i = i + 1;
    }
    assert(all.take(i as int) == all);
    out
}

/// Texts are ordered by the first character in which they differ, and a text comes before
/// every longer one that starts with it.
pub proof fn the_first_difference_decides(
    front: Seq<char>,
    a: char,
    x: Seq<char>,
    b: char,
    y: Seq<char>,
)
    requires
        a < b,
    ensures
        lex_le(front + seq![a] + x, front + seq![b] + y),
        !lex_le(front + seq![b] + y, front + seq![a] + x),
        lex_le(front, front + x),
        x.len() > 0 ==> !lex_le(front + x, front),
    decreases front.len(),
{
    let s = front + seq![a] + x;
    let t = front + seq![b] + y;
    if front.len() == 0 {
        assert(s[0] == a && t[0] == b);
    } else {
        let d = front.drop_first();
        the_first_difference_decides(d, a, x, b, y);
        assert(s[0] == front[0] && t[0] == front[0]);
        assert(s.drop_first() == d + seq![a] + x);
        assert(t.drop_first() == d + seq![b] + y);
        assert((front + x)[0] == front[0]);
        assert((front + x).drop_first() == d + x);
    }
}

} // verus!
