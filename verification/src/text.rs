//! Characters and the text operations the rest of the crate is written in.
//!
//! A string is modelled by the sequence of its characters. Every operation here
//! is described by a spec function on such sequences, and the executable
//! function next to it returns exactly what that function says.

use vstd::prelude::*;
use vstd::string::*;
use vstd::utf8::*;

verus! {

/// `String::push` appends one character at the end of the string.
pub assume_specification[ std::string::String::push ](s: &mut String, ch: char)
    ensures
        final(s)@ == old(s)@.push(ch),
;

/// Characters with the Unicode `White_Space` property.
pub open spec fn is_white(c: char) -> bool {
    let n = c as u32;
    ||| 9 <= n <= 13
    ||| n == 0x20
    ||| n == 0x85
    ||| n == 0xa0
    ||| n == 0x1680
    ||| 0x2000 <= n <= 0x200a
    ||| n == 0x2028
    ||| n == 0x2029
    ||| n == 0x202f
    ||| n == 0x205f
    ||| n == 0x3000
}

/// `true` on white space.
pub open spec fn white() -> spec_fn(char) -> bool {
    |c: char| is_white(c)
}

/// `true` on the character `x` alone.
pub open spec fn equal_to(x: char) -> spec_fn(char) -> bool {
    |c: char| c == x
}

/// ASCII letters and digits.
pub open spec fn is_alnum(c: char) -> bool {
    ('a' <= c && c <= 'z') || ('A' <= c && c <= 'Z') || ('0' <= c && c <= '9')
}

/// `c` with an ASCII capital turned into the small letter.
pub open spec fn lower_char(c: char) -> char {
    if 'A' <= c && c <= 'Z' {
        (c as u8 + 32) as u8 as char
    } else {
        c
    }
}

/// `s` with every ASCII capital turned into the small letter.
pub open spec fn lowered(s: Seq<char>) -> Seq<char> {
    Seq::new(s.len(), |i: int| lower_char(s[i]))
}

/// `s` without the leading characters on which `p` holds.
pub open spec fn skip_front(s: Seq<char>, p: spec_fn(char) -> bool) -> Seq<char>
    decreases s.len(),
{
    if s.len() > 0 && p(s[0]) {
        skip_front(s.drop_first(), p)
    } else {
        s
    }
}

/// `s` without the trailing characters on which `p` holds.
pub open spec fn skip_back(s: Seq<char>, p: spec_fn(char) -> bool) -> Seq<char>
    decreases s.len(),
{
    if s.len() > 0 && p(s.last()) {
        skip_back(s.drop_last(), p)
    } else {
        s
    }
}

/// `s` without the characters at either end on which `p` holds.
pub open spec fn stripped(s: Seq<char>, p: spec_fn(char) -> bool) -> Seq<char> {
    skip_back(skip_front(s, p), p)
}

/// `s` without white space at either end.
pub open spec fn trimmed(s: Seq<char>) -> Seq<char> {
    stripped(s, white())
}

/// The first `n` characters of `s`, or all of it when it is shorter.
pub open spec fn clipped(s: Seq<char>, n: int) -> Seq<char> {
    if n < s.len() {
        s.take(n)
    } else {
        s
    }
}

/// `s` begins with `p`.
pub open spec fn begins(s: Seq<char>, p: Seq<char>) -> bool {
    p.len() <= s.len() && s.take(p.len() as int) == p
}

/// `s` ends with `p`.
pub open spec fn ends(s: Seq<char>, p: Seq<char>) -> bool {
    p.len() <= s.len() && s.skip(s.len() - p.len()) == p
}

/// The decimal digit of value `d`.
pub open spec fn digit_char(d: int) -> char {
    (48 + d) as u8 as char
}

/// `n` written in decimal, without leading zeros.
pub open spec fn decimal_of(n: nat) -> Seq<char>
    decreases n,
{
    if n < 10 {
        seq![digit_char(n as int)]
    } else {
        decimal_of(n / 10).push(digit_char((n % 10) as int))
    }
}

/// The contents of a list of strings.
pub open spec fn views(v: Seq<String>) -> Seq<Seq<char>> {
    v.map_values(|s: String| s@)
}

/// The contents of an optional string.
pub open spec fn opt_view(o: Option<String>) -> Option<Seq<char>> {
    match o {
        Some(s) => Some(s@),
        None => None,
    }
}

/// The contents of an optional string slice.
pub open spec fn opt_str(o: Option<&str>) -> Option<Seq<char>> {
    match o {
        Some(s) => Some(s@),
        None => None,
    }
}

/// Where `p` first fails is where `skip_front` starts.
pub proof fn lemma_skip_front(s: Seq<char>, p: spec_fn(char) -> bool, i: int)
    requires
        0 <= i <= s.len(),
        forall|k: int| 0 <= k < i ==> p(#[trigger] s[k]),
        i < s.len() ==> !p(s[i]),
    ensures
        skip_front(s, p) == s.skip(i),
    decreases i,
{
    if i > 0 {
        let t = s.drop_first();
        assert(p(s[0]));
        assert forall|k: int| 0 <= k < i - 1 implies p(#[trigger] t[k]) by {
            assert(t[k] == s[k + 1]);
        }
        lemma_skip_front(t, p, i - 1);
        assert(t.skip(i - 1) == s.skip(i));
    } else {
        assert(s.skip(0) == s);
    }
}

/// Where `p` last fails is where `skip_back` stops.
pub proof fn lemma_skip_back(s: Seq<char>, p: spec_fn(char) -> bool, j: int)
    requires
        0 <= j <= s.len(),
        forall|k: int| j <= k < s.len() ==> p(#[trigger] s[k]),
        j > 0 ==> !p(s[j - 1]),
    ensures
        skip_back(s, p) == s.take(j),
    decreases s.len() - j,
{
    if j < s.len() {
        let t = s.drop_last();
        assert(p(s[s.len() - 1]));
        assert forall|k: int| j <= k < t.len() implies p(#[trigger] t[k]) by {
            assert(t[k] == s[k]);
        }
        lemma_skip_back(t, p, j);
        assert(t.take(j) == s.take(j));
    } else {
        assert(s.take(j) == s);
    }
}

/// The characters of `s`, in order.
pub fn chars_of(s: &str) -> (r: Vec<char>)
    ensures
        r@ == s@,
{
    let mut out: Vec<char> = Vec::new();
    for c in it: s.chars()
        invariant
            it.seq() == s@,
            out@ == s@.take(it.index() as int),
    {
        out.push(c);
    }
    out
}

/// The string made of the characters `v[i..j]`.
pub fn string_between(v: &Vec<char>, i: usize, j: usize) -> (r: String)
    requires
        i <= j <= v@.len(),
    ensures
        r@ == v@.subrange(i as int, j as int),
{
    let mut out = String::new();
    let mut k: usize = i;
    while k < j
        invariant
            i <= k <= j <= v@.len(),
            out@ == v@.subrange(i as int, k as int),
        decreases j - k,
    {
        out.push(v[k]);
        k = k + 1;
    }
    out
}

/// White space as `char::is_whitespace` knows it.
pub fn is_white_char(c: char) -> (r: bool)
    ensures
        r == is_white(c),
{
    let n: u32 = c as u32;
    (9 <= n && n <= 13) || n == 0x20 || n == 0x85 || n == 0xa0 || n == 0x1680 || (0x2000 <= n && n
        <= 0x200a) || n == 0x2028 || n == 0x2029 || n == 0x202f || n == 0x205f || n == 0x3000
}

/// ASCII letters and digits.
pub fn is_alnum_char(c: char) -> (r: bool)
    ensures
        r == is_alnum(c),
{
    ('a' <= c && c <= 'z') || ('A' <= c && c <= 'Z') || ('0' <= c && c <= '9')
}

/// `c` with an ASCII capital turned into the small letter.
pub fn to_lower_char(c: char) -> (r: char)
    ensures
        r == lower_char(c),
{
    if 'A' <= c && c <= 'Z' {
        (c as u8 + 32) as char
    } else {
        c
    }
}

/// `s` with every ASCII capital turned into the small letter.
pub fn to_lower(s: &str) -> (r: String)
    ensures
        r@ == lowered(s@),
{
    let mut out = String::new();
    for c in it: s.chars()
        invariant
            it.seq() == s@,
            out@ == lowered(s@).take(it.index() as int),
    {
        out.push(to_lower_char(c));
    }
    out
}

/// Whether the two strings hold the same characters.
pub fn same(a: &str, b: &str) -> (r: bool)
    ensures
        r == (a@ == b@),
{
    let x = a.as_bytes();
    let y = b.as_bytes();
    proof {
        encode_utf8_decode_utf8(a@);
        encode_utf8_decode_utf8(b@);
    }
    if x.len() != y.len() {
        return false;
    }
    let mut i: usize = 0;
    while i < x.len()
        invariant
            i <= x@.len(),
            x@.len() == y@.len(),
            x@ == encode_utf8(a@),
            y@ == encode_utf8(b@),
            forall|k: int| 0 <= k < i ==> x@[k] == y@[k],
        decreases x@.len() - i,
    {
        if x[i] != y[i] {
            return false;
        }
        i = i + 1;
    }
    assert(x@ == y@);
    true
}

/// `s` without white space at either end.
pub fn trim(s: &str) -> (r: &str)
    ensures
        r@ == trimmed(s@),
{
    let v = chars_of(s);
    let mut i: usize = 0;
    while i < v.len() && is_white_char(v[i])
        invariant
            i <= v@.len(),
            forall|k: int| 0 <= k < i ==> white()(#[trigger] v@[k]),
        decreases v@.len() - i,
    {
        i = i + 1;
    }
    let mut j: usize = v.len();
    while j > i && is_white_char(v[j - 1])
        invariant
            i <= j <= v@.len(),
            forall|k: int| j <= k < v@.len() ==> white()(#[trigger] v@[k]),
        decreases j,
    {
        j = j - 1;
    }
    proof {
        lemma_stripped(s@, white(), i as int, j as int);
    }
    s.substring_char(i, j)
}

/// `s` without the characters `x` at either end.
pub fn strip_char(s: &str, x: char) -> (r: &str)
    ensures
        r@ == stripped(s@, equal_to(x)),
{
    let v = chars_of(s);
    let mut i: usize = 0;
    while i < v.len() && v[i] == x
        invariant
            i <= v@.len(),
            forall|k: int| 0 <= k < i ==> equal_to(x)(#[trigger] v@[k]),
        decreases v@.len() - i,
    {
        i = i + 1;
    }
    let mut j: usize = v.len();
    while j > i && v[j - 1] == x
        invariant
            i <= j <= v@.len(),
            forall|k: int| j <= k < v@.len() ==> equal_to(x)(#[trigger] v@[k]),
        decreases j,
    {
        j = j - 1;
    }
    proof {
        lemma_stripped(s@, equal_to(x), i as int, j as int);
    }
    s.substring_char(i, j)
}

/// What `stripped` leaves is what lies between the outermost failures of `p`.
pub proof fn lemma_stripped(s: Seq<char>, p: spec_fn(char) -> bool, i: int, j: int)
    requires
        0 <= i <= j <= s.len(),
        forall|k: int| 0 <= k < i ==> p(#[trigger] s[k]),
        forall|k: int| j <= k < s.len() ==> p(#[trigger] s[k]),
        i < s.len() ==> !p(s[i]) || i == j,
        i < j ==> !p(s[i]) && !p(s[j - 1]),
    ensures
        stripped(s, p) == s.subrange(i, j),
{
    if i < j {
        lemma_skip_front(s, p, i);
        let t = s.skip(i);
        assert forall|k: int| j - i <= k < t.len() implies p(#[trigger] t[k]) by {
            assert(t[k] == s[k + i]);
        }
        assert(t[j - i - 1] == s[j - 1]);
        lemma_skip_back(t, p, j - i);
        assert(t.take(j - i) == s.subrange(i, j));
    } else {
        assert forall|k: int| 0 <= k < s.len() implies p(#[trigger] s[k]) by {}
        lemma_skip_front(s, p, s.len() as int);
        assert(s.skip(s.len() as int) == Seq::<char>::empty());
        assert(s.subrange(i, j) == Seq::<char>::empty());
    }
}

/// The text has nothing besides white space.
pub open spec fn blank(s: Seq<char>) -> bool {
    forall|i: int| 0 <= i < s.len() ==> is_white(#[trigger] s[i])
}

/// Trimming takes white space away at both ends and nothing else: what is left neither
/// starts nor ends with white space, and nothing is left exactly of a blank text.
pub proof fn trimming_takes_white_space_only(s: Seq<char>) -> (r: (Seq<char>, Seq<char>))
    ensures
        s == r.0 + trimmed(s) + r.1,
        blank(r.0) && blank(r.1),
        trimmed(s).len() > 0 ==> !is_white(trimmed(s)[0]) && !is_white(trimmed(s).last()),
        trimmed(s).len() == 0 <==> blank(s),
{
    let w = white();
    let i = lemma_skipped_front(s, w);
    let t = s.skip(i);
    let j = lemma_skipped_back(t, w);
    let a = s.take(i);
    let b = t.skip(j);
    let m = trimmed(s);
    assert(m == t.take(j));
    assert(s == a + m + b);
    assert(blank(a)) by {
        assert forall|k: int| 0 <= k < a.len() implies is_white(#[trigger] a[k]) by {
            assert(w(s[k]));
        }
    }
    assert(blank(b)) by {
        assert forall|k: int| 0 <= k < b.len() implies is_white(#[trigger] b[k]) by {
            assert(b[k] == t[j + k]);
            assert(w(t[j + k]));
        }
    }
    if m.len() > 0 {
        assert(m[0] == t[0] && t[0] == s[i]);
        assert(m.last() == t[j - 1]);
        assert(!w(s[i]) && !w(t[j - 1]));
        assert(!is_white(s[i]));
    } else {
        assert forall|k: int| 0 <= k < s.len() implies is_white(#[trigger] s[k]) by {
            if k < i {
                assert(a[k] == s[k]);
            } else {
                assert(b[k - i] == s[k]);
            }
        }
    }
    (a, b)
}

/// Where skipping at the front stops.
proof fn lemma_skipped_front(s: Seq<char>, p: spec_fn(char) -> bool) -> (i: int)
    ensures
        0 <= i <= s.len(),
        skip_front(s, p) == s.skip(i),
        forall|k: int| 0 <= k < i ==> p(#[trigger] s[k]),
        i < s.len() ==> !p(s[i]),
    decreases s.len(),
{
    if s.len() > 0 && p(s[0]) {
        let t = s.drop_first();
        let j = lemma_skipped_front(t, p);
        assert(t.skip(j) == s.skip(j + 1));
        assert forall|k: int| 0 <= k < j + 1 implies p(#[trigger] s[k]) by {
            if k > 0 {
                assert(t[k - 1] == s[k]);
            }
        }
        j + 1
    } else {
        assert(s.skip(0) == s);
        0
    }
}

/// Where skipping at the back stops.
proof fn lemma_skipped_back(s: Seq<char>, p: spec_fn(char) -> bool) -> (j: int)
    ensures
        0 <= j <= s.len(),
        skip_back(s, p) == s.take(j),
        forall|k: int| j <= k < s.len() ==> p(#[trigger] s[k]),
        j > 0 ==> !p(s[j - 1]),
    decreases s.len(),
{
    if s.len() > 0 && p(s.last()) {
        let t = s.drop_last();
        let j = lemma_skipped_back(t, p);
        assert(t.take(j) == s.take(j));
        assert forall|k: int| j <= k < s.len() implies p(#[trigger] s[k]) by {
            if k < s.len() - 1 {
                assert(t[k] == s[k]);
            }
        }
        j
    } else {
        assert(s.take(s.len() as int) == s);
        s.len() as int
    }
}

/// `s` without the leading characters `x`.
pub fn strip_front(s: &str, x: char) -> (r: &str)
    ensures
        r@ == skip_front(s@, equal_to(x)),
{
    let v = chars_of(s);
    let mut i: usize = 0;
    while i < v.len() && v[i] == x
        invariant
            i <= v@.len(),
            forall|k: int| 0 <= k < i ==> equal_to(x)(#[trigger] v@[k]),
        decreases v@.len() - i,
    {
        i = i + 1;
    }
    proof {
        lemma_skip_front(s@, equal_to(x), i as int);
        assert(s@.skip(i as int) == s@.subrange(i as int, s@.len() as int));
    }
    s.substring_char(i, v.len())
}

/// The first `n` characters of `s`, or all of it when it is shorter.
pub fn clip(s: &str, n: usize) -> (r: String)
    ensures
        r@ == clipped(s@, n as int),
{
    let mut out = String::new();
    let mut left: usize = n;
    for c in it: s.chars()
        invariant
            it.seq() == s@,
            left <= n,
            left > 0 ==> n - left == it.index(),
            left == 0 ==> n <= it.index(),
            out@ == clipped(s@.take(it.index() as int), n as int),
    {
        let ghost i = it.index() as int;
        assert(s@.take(i + 1) == s@.take(i).push(c));
        if left > 0 {
            out.push(c);
            left = left - 1;
        } else {
            assert(clipped(s@.take(i + 1), n as int) == clipped(s@.take(i), n as int));
        }
    }
    assert(s@.take(s@.len() as int) == s@);
    out
}

/// Whether `s` begins with `p`.
pub fn starts_with(s: &str, p: &str) -> (r: bool)
    ensures
        r == begins(s@, p@),
{
    let v = chars_of(s);
    let w = chars_of(p);
    if w.len() > v.len() {
        return false;
    }
    let mut i: usize = 0;
    while i < w.len()
        invariant
            v@ == s@,
            w@ == p@,
            i <= w@.len() <= v@.len(),
            forall|k: int| 0 <= k < i ==> v@[k] == w@[k],
        decreases w@.len() - i,
    {
        if v[i] != w[i] {
            assert(s@.take(p@.len() as int)[i as int] != p@[i as int]);
            return false;
        }
        i = i + 1;
    }
    assert(s@.take(p@.len() as int) == p@);
    true
}

/// Whether `s` ends with `p`.
pub fn ends_with(s: &str, p: &str) -> (r: bool)
    ensures
        r == ends(s@, p@),
{
    let v = chars_of(s);
    let w = chars_of(p);
    if w.len() > v.len() {
        return false;
    }
    let d: usize = v.len() - w.len();
    let mut i: usize = 0;
    while i < w.len()
        invariant
            v@ == s@,
            w@ == p@,
            d == v.len() - w.len(),
            i <= w@.len() <= v@.len(),
            forall|k: int| 0 <= k < i ==> v@[d + k] == w@[k],
        decreases w@.len() - i,
    {
        if v[d + i] != w[i] {
            assert(s@.skip(d as int)[i as int] != p@[i as int]);
            return false;
        }
        i = i + 1;
    }
    assert(s@.skip(d as int) == p@);
    true
}

/// What follows `p` in `s`, when `s` begins with `p`.
pub fn after_prefix<'a>(s: &'a str, p: &str) -> (r: Option<&'a str>)
    ensures
        match r {
            Some(t) => begins(s@, p@) && t@ == s@.skip(p@.len() as int),
            None => !begins(s@, p@),
        },
{
    if starts_with(s, p) {
        let n: usize = s.unicode_len();
        let m: usize = p.unicode_len();
        assert(s@.subrange(m as int, n as int) == s@.skip(m as int));
        Some(s.substring_char(m, n))
    } else {
        None
    }
}

/// `n` written in decimal.
pub fn decimal(n: u64) -> (r: String)
    ensures
        r@ == decimal_of(n as nat),
    decreases n,
{
    if n < 10 {
        let mut out = String::new();
        out.push((48 + n as u8) as char);
        assert(out@ == seq![digit_char(n as int)]);
        out
    } else {
        let mut out = decimal(n / 10);
        out.push((48 + (n % 10) as u8) as char);
        out
    }
}

/// A copy of an optional string.
pub fn copy_opt(o: &Option<String>) -> (r: Option<String>)
    ensures
        opt_view(r) == opt_view(*o),
{
    match o {
        Some(s) => Some(s.clone()),
        None => None,
    }
}

/// A copy of a list of strings.
pub fn copy_list(v: &Vec<String>) -> (r: Vec<String>)
    ensures
        views(r@) == views(v@),
{
    let mut out: Vec<String> = Vec::new();
    let mut i: usize = 0;
    while i < v.len()
        invariant
            i <= v@.len(),
            out@ == v@.take(i as int),
        decreases v@.len() - i,
    {
        out.push(v[i].clone());
        i = i + 1;
    }
    assert(v@.take(i as int) == v@);
    out
}

/// `v` with `s` added at its end.
pub fn push_text(v: &mut Vec<String>, s: String)
    ensures
        views(final(v)@) == views(old(v)@).push(s@),
{
    v.push(s);
}

/// Whether one of the strings is `s`.
pub fn listed(v: &Vec<String>, s: &str) -> (r: bool)
    ensures
        r == views(v@).contains(s@),
{
    let mut i: usize = 0;
    while i < v.len()
        invariant
            i <= v@.len(),
            forall|k: int| 0 <= k < i ==> #[trigger] views(v@)[k] != s@,
        decreases v@.len() - i,
    {
        assert(views(v@)[i as int] == v@[i as int]@);
        if same(v[i].as_str(), s) {
            return true;
        }
        i = i + 1;
    }
    false
}

/// The string held by `o`, or `other`.
pub fn text_or<'a>(o: &'a Option<String>, other: &'a str) -> (r: &'a str)
    ensures
        r@ == (match opt_view(*o) {
            Some(s) => s,
            None => other@,
        }),
{
    match o {
        Some(s) => s.as_str(),
        None => other,
    }
}

/// Lowering touches ASCII capitals alone: each becomes its small letter, thirty-two places
/// further on, and every other character stays.
pub proof fn lowering_touches_capitals_only(s: Seq<char>)
    ensures
        lowered(s).len() == s.len(),
        forall|i: int|
            0 <= i < s.len() ==> #[trigger] lowered(s)[i] as int == if 'A' <= s[i] && s[i] <= 'Z' {
                s[i] as int + 32
            } else {
                s[i] as int
            },
{
}

/// A text begins as its first part does.
pub proof fn lemma_begins_add(s: Seq<char>, t: Seq<char>)
    ensures
        forall|p: Seq<char>| begins(s, p) ==> #[trigger] begins(s + t, p),
{
    assert forall|p: Seq<char>| begins(s, p) implies #[trigger] begins(s + t, p) by {
        assert((s + t).take(p.len() as int) == s.take(p.len() as int));
    }
}

/// Clipping keeps the beginning: all of a short text, and of a longer one as much as wanted.
pub proof fn clipping_keeps_the_beginning(s: Seq<char>, n: int)
    requires
        0 <= n,
    ensures
        s.len() <= n ==> clipped(s, n) == s,
        s.len() > n ==> clipped(s, n).len() == n && begins(s, clipped(s, n)),
{
}

} // verus!
