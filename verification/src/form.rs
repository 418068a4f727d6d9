//! Percent-encoding, and forms that browsers send.

use vstd::prelude::*;
use vstd::string::*;
use vstd::utf8::*;

use crate::bytes;
use crate::search;
use crate::split;
use crate::text;

verus! {

/// Bytes that are not encoded in an address.
pub open spec fn unreserved(b: u8) -> bool {
    (65 <= b <= 90) || (97 <= b <= 122) || (48 <= b <= 57) || b == 45 || b == 95 || b == 46 || b
        == 126 || b == 40 || b == 41
}

/// How one byte stands in an address.
pub open spec fn encoded_byte(b: u8) -> Seq<char> {
    if unreserved(b) {
        seq![b as char]
    } else {
        seq!['%', bytes::hex_upper(b as int / 16), bytes::hex_upper(b as int % 16)]
    }
}

/// How bytes stand in an address.
pub open spec fn encoded_bytes(b: Seq<u8>) -> Seq<char>
    decreases b.len(),
{
    if b.len() == 0 {
        Seq::empty()
    } else {
        encoded_bytes(b.drop_last()) + encoded_byte(b.last())
    }
}

/// How a text stands in an address.
pub open spec fn url_encoded(s: Seq<char>) -> Seq<char> {
    encoded_bytes(encode_utf8(s))
}

fn upper_digit(d: u8) -> (r: char)
    requires
        d < 16,
    ensures
        r == bytes::hex_upper(d as int),
{
    if d < 10 {
        (48 + d) as char
    } else {
        (55 + d) as char
    }
}

/// How a text stands in an address.
pub fn url_encode_component(s: &str) -> (r: String)
    ensures
        r@ == url_encoded(s@),
{
    let b = s.as_bytes();
    let mut out = String::new();
    let mut i: usize = 0;
    assert(b@.take(0) == Seq::<u8>::empty());
    while i < b.len()
        invariant
            i <= b@.len(),
            out@ == encoded_bytes(b@.take(i as int)),
        decreases b@.len() - i,
    {
        let c: u8 = b[i];
        let ghost before = out@;
        proof {
            assert(b@.take(i + 1).drop_last() == b@.take(i as int));
            assert(b@.take(i + 1).last() == c);
        }
        if (65 <= c && c <= 90) || (97 <= c && c <= 122) || (48 <= c && c <= 57) || c == 45 || c
            == 95 || c == 46 || c == 126 || c == 40 || c == 41 {
            out.push(c as char);
            assert(out@ == before + seq![c as char]);
        } else {
            out.push('%');
            out.push(upper_digit(c / 16));
            out.push(upper_digit(c % 16));
            assert(out@ == before + encoded_byte(c));
        }
        i = i + 1;
    }
    assert(b@.take(i as int) == b@);
    out
}

/// The value of a hexadecimal digit.
pub open spec fn hex_value(b: u8) -> Option<int> {
    if 48 <= b <= 57 {
        Some(b - 48)
    } else if 97 <= b <= 102 {
        Some(b - 87)
    } else if 65 <= b <= 70 {
        Some(b - 55)
    } else {
        None
    }
}

/// The bytes start with a percent sign and two hexadecimal digits.
pub open spec fn starts_encoded(b: Seq<u8>) -> bool {
    b.len() > 2 && b[0] == 37 && hex_value(b[1]) is Some && hex_value(b[2]) is Some
}

/// The byte that a percent sign and two digits stand for.
pub open spec fn first_encoded(b: Seq<u8>) -> u8 {
    (16 * hex_value(b[1]).unwrap() + hex_value(b[2]).unwrap()) as u8
}

/// The bytes with every percent sign that has two hexadecimal digits behind it turned
/// into the byte that they stand for.
pub open spec fn decoded_bytes(b: Seq<u8>) -> Seq<u8>
    decreases b.len(),
{
    if b.len() == 0 {
        Seq::empty()
    } else if starts_encoded(b) {
        seq![first_encoded(b)] + decoded_bytes(b.skip(3))
    } else {
        seq![b[0]] + decoded_bytes(b.drop_first())
    }
}

/// The two bytes behind every percent sign are whole characters, where there are two.
pub open spec fn cleanly_cut(b: Seq<u8>) -> bool
    decreases b.len(),
{
    if b.len() == 0 {
        true
    } else if b[0] == 37 && b.len() > 3 && is_continuation_byte(b[3]) {
        false
    } else if starts_encoded(b) {
        cleanly_cut(b.skip(3))
    } else {
        cleanly_cut(b.drop_first())
    }
}

/// The bytes in which a text of a form is decoded: a plus sign is a space.
pub open spec fn form_bytes(s: Seq<char>) -> Seq<u8> {
    encode_utf8(search::replaced(s, "+"@, " "@))
}

/// A text of a form can be decoded.
pub open spec fn decodable(s: Seq<char>) -> bool {
    cleanly_cut(form_bytes(s))
}

/// The text that a text of a form stands for.
pub open spec fn url_decoded(s: Seq<char>) -> Seq<char> {
    bytes::text_of(decoded_bytes(form_bytes(s)))
}

fn digit_value(b: u8) -> (r: Option<u8>)
    ensures
        match r {
            Some(v) => v < 16 && hex_value(b) == Some(v as int),
            None => hex_value(b) is None,
        },
{
    if 48 <= b && b <= 57 {
        Some(b - 48)
    } else if 97 <= b && b <= 102 {
        Some(b - 87)
    } else if 65 <= b && b <= 70 {
        Some(b - 55)
    } else {
        None
    }
}

/// The byte that stands encoded at position `i`, if one does.
fn encoded_at(b: &[u8], i: usize) -> (r: Option<u8>)
    requires
        i < b@.len(),
    ensures
        match r {
            Some(v) => starts_encoded(b@.skip(i as int)) && v == first_encoded(b@.skip(i as int))
                && i + 3 <= b.len(),
            None => !starts_encoded(b@.skip(i as int)),
        },
{
    if b[i] != 37 || b.len() - i <= 2 {
        return None;
    }
    assert(b@.skip(i as int)[1] == b@[i + 1]);
    assert(b@.skip(i as int)[2] == b@[i + 2]);
    match digit_value(b[i + 1]) {
        Some(h) => match digit_value(b[i + 2]) {
            Some(l) => Some(16 * h + l),
            None => None,
        },
        None => None,
    }
}

/// Whether a text of a form can be decoded.
pub fn can_decode(s: &str) -> (r: bool)
    ensures
        r == decodable(s@),
{
    proof {
        reveal_strlit("+");
    }
    let t = search::replace(s, "+", " ");
    let b = t.as_str().as_bytes();
    let mut i: usize = 0;
    assert(b@.skip(0) == b@);
    while i < b.len()
        invariant
            b@ == form_bytes(s@),
            i <= b.len(),
            cleanly_cut(b@) == cleanly_cut(b@.skip(i as int)),
        decreases b@.len() - i,
    {
        let ghost rest = b@.skip(i as int);
        if b[i] == 37 && b.len() - i > 3 {
            assert(rest[3] == b@[i + 3]);
            if 128 <= b[i + 3] && b[i + 3] <= 191 {
                return false;
            }
        }
        match encoded_at(b, i) {
            Some(_) => {
                assert(rest.skip(3) == b@.skip(i + 3));
                i = i + 3;
            },
            None => {
                assert(rest.drop_first() == b@.skip(i + 1));
                i = i + 1;
            },
        }
    }
    true
}

/// The text that a text of a form stands for.
pub fn url_decode(s: &str) -> (r: String)
    requires
        decodable(s@),
    ensures
        r@ == url_decoded(s@),
{
    proof {
        reveal_strlit("+");
    }
    let t = search::replace(s, "+", " ");
    let b = t.as_str().as_bytes();
    let mut out: Vec<u8> = Vec::new();
    let mut i: usize = 0;
    assert(b@.skip(0) == b@);
    assert(out@ + decoded_bytes(b@) == decoded_bytes(b@));
    while i < b.len()
        invariant
            b@ == form_bytes(s@),
            i <= b.len(),
            out@ + decoded_bytes(b@.skip(i as int)) == decoded_bytes(b@),
        decreases b@.len() - i,
    {
        let ghost rest = b@.skip(i as int);
        let ghost before = out@;
        match encoded_at(b, i) {
            Some(v) => {
                out.push(v);
                assert(rest.skip(3) == b@.skip(i + 3));
                assert(out@ + decoded_bytes(b@.skip(i + 3)) == before + (seq![v] + decoded_bytes(
                    b@.skip(i + 3),
                )));
                i = i + 3;
            },
            None => {
                out.push(b[i]);
                assert(rest[0] == b@[i as int]);
                assert(rest.drop_first() == b@.skip(i + 1));
                assert(out@ + decoded_bytes(b@.skip(i + 1)) == before + (seq![rest[0]]
                    + decoded_bytes(b@.skip(i + 1))));
                i = i + 1;
            },
        }
    }
    assert(out@ + Seq::<u8>::empty() == out@);
    bytes::decode_lossy(out.as_slice())
}

/// What comes before the first equals sign of a pair, and what comes after it.
pub open spec fn pair_of(p: Seq<char>) -> (Seq<char>, Seq<char>) {
    match split::cut(p, '=') {
        Some(kv) => kv,
        None => (p, Seq::empty()),
    }
}

/// The pairs can be decoded.
pub open spec fn pairs_decodable(ps: Seq<Seq<char>>) -> bool {
    forall|i: int|
        0 <= i < ps.len() && ps[i].len() > 0 ==> decodable(pair_of(#[trigger] ps[i]).0) && decodable(
            pair_of(ps[i]).1,
        )
}

/// What a form holds: of two entries with one key the later one counts.
pub open spec fn pairs_map(ps: Seq<Seq<char>>) -> Map<Seq<char>, Seq<char>>
    decreases ps.len(),
{
    if ps.len() == 0 {
        Map::empty()
    } else {
        let before = pairs_map(ps.drop_last());
        let p = ps.last();
        if p.len() == 0 {
            before
        } else {
            before.insert(url_decoded(pair_of(p).0), url_decoded(pair_of(p).1))
        }
    }
}

/// The pairs in the body of a form.
pub open spec fn form_pairs(body: Seq<u8>) -> Seq<Seq<char>> {
    split::pieces(bytes::text_of(body), '&')
}

/// A form that was sent.
#[derive(Debug, Clone)]
pub struct Form {
    entries: Vec<(String, String)>,
}

/// The entries, of which later ones replace earlier ones.
pub open spec fn entries_map(v: Seq<(String, String)>) -> Map<Seq<char>, Seq<char>>
    decreases v.len(),
{
    if v.len() == 0 {
        Map::empty()
    } else {
        entries_map(v.drop_last()).insert(v.last().0@, v.last().1@)
    }
}

impl View for Form {
    type V = Map<Seq<char>, Seq<char>>;

    closed spec fn view(&self) -> Map<Seq<char>, Seq<char>> {
        entries_map(self.entries@)
    }
}

/// The key and value of one pair.
fn cut_pair(p: &str) -> (r: (String, String))
    ensures
        (r.0@, r.1@) == pair_of(p@),
{
    match split::split_once(p, '=') {
        Some((k, v)) => (k, v),
        None => (p.to_owned(), String::new()),
    }
}

/// Whether the body of a form can be decoded.
pub fn can_parse_form(body: &[u8]) -> (r: bool)
    ensures
        r == pairs_decodable(form_pairs(body@)),
{
    let s = bytes::decode_lossy(body);
    let ps = split::split(s.as_str(), '&');
    let ghost all = text::views(ps@);
    let mut i: usize = 0;
    while i < ps.len()
        invariant
            i <= ps@.len(),
            all == text::views(ps@),
            all == form_pairs(body@),
            pairs_decodable(all.take(i as int)),
        decreases ps@.len() - i,
    {
        assert(all[i as int] == ps@[i as int]@);
        if ps[i].as_str().unicode_len() > 0 {
            let (k, v) = cut_pair(ps[i].as_str());
            if !(can_decode(k.as_str()) && can_decode(v.as_str())) {
                assert(!pairs_decodable(all)) by {
                    if pairs_decodable(all) {
                        assert(decodable(pair_of(all[i as int]).0));
                    }
                }
                return false;
            }
        }
        assert forall|j: int|
            0 <= j < all.take(i + 1).len() && all.take(i + 1)[j].len() > 0 implies decodable(
            pair_of(#[trigger] all.take(i + 1)[j]).0,
        ) && decodable(pair_of(all.take(i + 1)[j]).1) by {
            if j < i {
                assert(all.take(i + 1)[j] == all.take(i as int)[j]);
            }
        }
        i = i + 1;
    }
    assert(all.take(i as int) == all);
    true
}

/// Reads the body of a form.
pub fn parse_form(body: &[u8]) -> (r: Form)
    requires
        pairs_decodable(form_pairs(body@)),
    ensures
        r@ == pairs_map(form_pairs(body@)),
{
    let s = bytes::decode_lossy(body);
    let ps = split::split(s.as_str(), '&');
    let ghost all = text::views(ps@);
    let mut entries: Vec<(String, String)> = Vec::new();
    let mut i: usize = 0;
    assert(entries_map(entries@) == pairs_map(all.take(0)));
    while i < ps.len()
        invariant
            i <= ps@.len(),
            all == text::views(ps@),
            pairs_decodable(all),
            entries_map(entries@) == pairs_map(all.take(i as int)),
        decreases ps@.len() - i,
    {
        proof {
            assert(all[i as int] == ps@[i as int]@);
            assert(all.take(i + 1).drop_last() == all.take(i as int));
            assert(all.take(i + 1).last() == all[i as int]);
        }
        if ps[i].as_str().unicode_len() > 0 {
            let (k, v) = cut_pair(ps[i].as_str());
            assert(decodable(pair_of(all[i as int]).0));
            let ghost before = entries@;
            let key = url_decode(k.as_str());
            let value = url_decode(v.as_str());
            entries.push((key, value));
            assert(entries@.drop_last() == before);
        }
        i = i + 1;
    }
    assert(all.take(i as int) == all);
    Form { entries }
}

/// The value of a key, if it has one.
pub open spec fn field(m: Map<Seq<char>, Seq<char>>, key: Seq<char>) -> Option<Seq<char>> {
    if m.dom().contains(key) {
        Some(m[key])
    } else {
        None
    }
}

/// The value of a key, if it has one that is not empty.
pub open spec fn filled_field(m: Map<Seq<char>, Seq<char>>, key: Seq<char>) -> Option<Seq<char>> {
    match field(m, key) {
        Some(v) => if v.len() > 0 {
            Some(v)
        } else {
            None
        },
        None => None,
    }
}

impl Form {
    /// The value of a key, if it has one.
    pub fn get(&self, key: &str) -> (r: Option<String>)
        ensures
            text::opt_view(r) == field(self@, key@),
    {
        let mut i: usize = self.entries.len();
        assert(self.entries@.take(i as int) == self.entries@);
        while i > 0
            invariant
                i <= self.entries@.len(),
                field(entries_map(self.entries@), key@) == field(
                    entries_map(self.entries@.take(i as int)),
                    key@,
                ),
            decreases i,
        {
            let ghost t = self.entries@.take(i as int);
            assert(t.last() == self.entries@[i - 1]);
            assert(t.drop_last() == self.entries@.take(i - 1));
            if text::same(self.entries[i - 1].0.as_str(), key) {
                return Some(self.entries[i - 1].1.clone());
            }
            i = i - 1;
        }
        None
    }

    /// The value of a key, if it has one that is not empty.
    pub fn get_filled(&self, key: &str) -> (r: Option<String>)
        ensures
            text::opt_view(r) == filled_field(self@, key@),
    {
        match self.get(key) {
            Some(v) => {
                if v.as_str().unicode_len() > 0 {
                    Some(v)
                } else {
                    None
                }
            },
            None => None,
        }
    }
}

/// The characters of an encoded text are plain: one byte each, and no plus sign.
proof fn lemma_encoded_plain(b: Seq<u8>)
    ensures
        forall|i: int|
            0 <= i < encoded_bytes(b).len() ==> (#[trigger] encoded_bytes(b)[i]) <= '\u{7f}'
                && encoded_bytes(b)[i] != '+' && encoded_bytes(b)[i] >= '\0',
    decreases b.len(),
{
    if b.len() > 0 {
        let d = encoded_bytes(b.drop_last());
        let e = encoded_byte(b.last());
        let all = encoded_bytes(b);
        lemma_encoded_plain(b.drop_last());
        assert forall|i: int| 0 <= i < all.len() implies (#[trigger] all[i]) <= '\u{7f}' && all[i]
            != '+' && all[i] >= '\0' by {
            if i < d.len() {
                assert(all[i] == d[i]);
            } else {
                assert(all[i] == e[i - d.len()]);
            }
        }
    }
}

/// The bytes of one encoded byte.
pub open spec fn encoded_raw(b: u8) -> Seq<u8> {
    if unreserved(b) {
        seq![b]
    } else {
        seq![37u8, bytes::hex_upper(b as int / 16) as u8, bytes::hex_upper(b as int % 16) as u8]
    }
}

/// Decoding what one byte was encoded as.
proof fn lemma_decode_one(b: u8, rest: Seq<u8>)
    ensures
        decoded_bytes(encoded_raw(b) + rest) == seq![b] + decoded_bytes(rest),
        cleanly_cut(rest) && (rest.len() > 0 ==> !is_continuation_byte(rest[0])) ==> cleanly_cut(
            encoded_raw(b) + rest,
        ),
{
    let w = encoded_raw(b) + rest;
    if unreserved(b) {
        assert(w[0] == b);
        assert(w.drop_first() == rest);
        assert(!starts_encoded(w));
    } else {
        assert(w[0] == 37 && w[1] == bytes::hex_upper(b as int / 16) as u8 && w[2]
            == bytes::hex_upper(b as int % 16) as u8);
        assert(hex_value(w[1]) == Some(b as int / 16));
        assert(hex_value(w[2]) == Some(b as int % 16));
        assert(w.skip(3) == rest);
        assert(rest.len() > 0 ==> w[3] == rest[0]);
        assert(first_encoded(w) == b);
    }
}

/// Decoding what a string of bytes was encoded as.
proof fn lemma_decode_all(b: Seq<u8>, rest: Seq<u8>)
    requires
        cleanly_cut(rest),
        rest.len() > 0 ==> !is_continuation_byte(rest[0]),
    ensures
        decoded_bytes(encode_utf8(encoded_bytes(b)) + rest) == b + decoded_bytes(rest),
        cleanly_cut(encode_utf8(encoded_bytes(b)) + rest),
    decreases b.len(),
{
    if b.len() == 0 {
        assert(encode_utf8(encoded_bytes(b)) + rest == rest);
        assert(b + decoded_bytes(rest) == decoded_bytes(rest));
    } else {
        let d = b.drop_last();
        let c = b.last();
        let e = encoded_byte(c);
        assert(is_ascii_chars(e)) by {
            assert forall|i: int| 0 <= i < e.len() implies '\0' <= #[trigger] e[i] <= '\u{7f}' by {}
        }
        is_ascii_chars_encode_utf8(e);
        assert(encode_utf8(e) == encoded_raw(c));
        bytes::lemma_encode_add(encoded_bytes(d), e);
        let r = encoded_raw(c) + rest;
        lemma_decode_one(c, rest);
        assert(!is_continuation_byte(r[0]));
        lemma_decode_all(d, r);
        assert(encode_utf8(encoded_bytes(b)) + rest == encode_utf8(encoded_bytes(d)) + r);
        assert(d + (seq![c] + decoded_bytes(rest)) == b + decoded_bytes(rest));
    }
}

/// A text that was encoded for an address can be decoded, and is the same again.
pub proof fn encoded_text_is_read_back(s: Seq<char>)
    ensures
        decodable(url_encoded(s)),
        url_decoded(url_encoded(s)) == s,
{
    let b = encode_utf8(s);
    let u = url_encoded(s);
    reveal_strlit("+");
    assert("+"@ == seq!['+']);
    lemma_encoded_plain(b);
    search::lemma_replaced_char(u, '+', " "@);
    search::lemma_spelled_plain(u, '+', search::swap_char('+', " "@));
    let e = Seq::<u8>::empty();
    lemma_decode_all(b, e);
    assert(encode_utf8(u) + e == encode_utf8(u));
    assert(b + decoded_bytes(e) == b);
    bytes::lemma_text_of_encoded(s);
}

/// A field of a form as it is sent.
pub open spec fn sent_field(f: (Seq<char>, Seq<char>)) -> Seq<char> {
    url_encoded(f.0) + seq!['='] + url_encoded(f.1)
}

/// The body of a form as it is sent.
pub open spec fn sent_form(fields: Seq<(Seq<char>, Seq<char>)>) -> Seq<u8> {
    encode_utf8(
        split::joined(fields.map_values(|f: (Seq<char>, Seq<char>)| sent_field(f)), seq!['&']),
    )
}

/// What the fields say: of two with one key the later one counts.
pub open spec fn fields_map(fields: Seq<(Seq<char>, Seq<char>)>) -> Map<Seq<char>, Seq<char>>
    decreases fields.len(),
{
    if fields.len() == 0 {
        Map::empty()
    } else {
        fields_map(fields.drop_last()).insert(fields.last().0, fields.last().1)
    }
}

/// An encoded text holds neither of the characters that set fields and values apart.
proof fn lemma_encoded_no_marks(b: Seq<u8>)
    ensures
        forall|i: int|
            0 <= i < encoded_bytes(b).len() ==> (#[trigger] encoded_bytes(b)[i]) != '&'
                && encoded_bytes(b)[i] != '=',
    decreases b.len(),
{
    if b.len() > 0 {
        let d = encoded_bytes(b.drop_last());
        let e = encoded_byte(b.last());
        let all = encoded_bytes(b);
        lemma_encoded_no_marks(b.drop_last());
        assert forall|i: int| 0 <= i < all.len() implies (#[trigger] all[i]) != '&' && all[i]
            != '=' by {
            if i < d.len() {
                assert(all[i] == d[i]);
            } else {
                assert(all[i] == e[i - d.len()]);
            }
        }
    }
}

proof fn lemma_sent_field(f: (Seq<char>, Seq<char>))
    ensures
        sent_field(f).len() > 0,
        pair_of(sent_field(f)) == (url_encoded(f.0), url_encoded(f.1)),
        forall|i: int| 0 <= i < sent_field(f).len() ==> #[trigger] sent_field(f)[i] != '&',
{
    let k = url_encoded(f.0);
    let v = url_encoded(f.1);
    let s = sent_field(f);
    lemma_encoded_no_marks(encode_utf8(f.0));
    lemma_encoded_no_marks(encode_utf8(f.1));
    let n = k.len() as int;
    assert(s[n] == '=');
    assert forall|i: int| 0 <= i < n implies #[trigger] s[i] != '=' by {
        assert(s[i] == k[i]);
    }
    split::lemma_first_of_is(s, '=', n);
    assert(s.take(n) == k);
    assert(s.skip(n + 1) == v);
    assert forall|i: int| 0 <= i < s.len() implies #[trigger] s[i] != '&' by {
        if i < n {
            assert(s[i] == k[i]);
        } else if i > n {
            assert(s[i] == v[i - n - 1]);
        }
    }
}

proof fn lemma_sent_pairs(fields: Seq<(Seq<char>, Seq<char>)>)
    ensures
        pairs_map(fields.map_values(|f: (Seq<char>, Seq<char>)| sent_field(f))) == fields_map(fields),
    decreases fields.len(),
{
    let ps = fields.map_values(|f: (Seq<char>, Seq<char>)| sent_field(f));
    if fields.len() > 0 {
        let d = fields.drop_last();
        lemma_sent_pairs(d);
        assert(ps.drop_last() == d.map_values(|f: (Seq<char>, Seq<char>)| sent_field(f)));
        lemma_sent_field(fields.last());
        encoded_text_is_read_back(fields.last().0);
        encoded_text_is_read_back(fields.last().1);
    }
}

/// A form is read as it was sent: every field has the value that it was given last,
/// whatever the texts hold.
pub proof fn sent_forms_are_read_back(fields: Seq<(Seq<char>, Seq<char>)>)
    requires
        fields.len() > 0,
    ensures
        pairs_decodable(form_pairs(sent_form(fields))),
        pairs_map(form_pairs(sent_form(fields))) == fields_map(fields),
{
    let ps = fields.map_values(|f: (Seq<char>, Seq<char>)| sent_field(f));
    assert forall|w: int, i: int| 0 <= w < ps.len() && 0 <= i < ps[w].len() implies #[trigger] ps[w][i]
        != '&' by {
        lemma_sent_field(fields[w]);
    }
    split::lemma_pieces_joined(ps, '&');
    bytes::lemma_text_of_encoded(split::joined(ps, seq!['&']));
    assert(form_pairs(sent_form(fields)) == ps);
    assert forall|i: int| 0 <= i < ps.len() && ps[i].len() > 0 implies decodable(
        pair_of(#[trigger] ps[i]).0,
    ) && decodable(pair_of(ps[i]).1) by {
        lemma_sent_field(fields[i]);
        encoded_text_is_read_back(fields[i].0);
        encoded_text_is_read_back(fields[i].1);
    }
    lemma_sent_pairs(fields);
}

/// Fields with different names have the values that they were given, and there are no
/// others.
pub proof fn lemma_fields_apart(fields: Seq<(Seq<char>, Seq<char>)>)
    requires
        forall|i: int, j: int|
            0 <= i < j < fields.len() ==> (#[trigger] fields[i]).0 != (#[trigger] fields[j]).0,
    ensures
        forall|i: int|
            0 <= i < fields.len() ==> fields_map(fields).dom().contains((#[trigger] fields[i]).0)
                && fields_map(fields)[fields[i].0] == fields[i].1,
        forall|k: Seq<char>| #[trigger]
            fields_map(fields).dom().contains(k) ==> exists|i: int|
                0 <= i < fields.len() && (#[trigger] fields[i]).0 == k,
    decreases fields.len(),
{
    if fields.len() > 0 {
        let d = fields.drop_last();
        assert forall|i: int, j: int| 0 <= i < j < d.len() implies (#[trigger] d[i]).0 != (
        #[trigger] d[j]).0 by {
            assert(fields[i].0 != fields[j].0);
        }
        lemma_fields_apart(d);
        let m = fields_map(fields);
        let n = fields.len() - 1;
        assert forall|i: int| 0 <= i < fields.len() implies m.dom().contains((#[trigger] fields[i]).0)
            && m[fields[i].0] == fields[i].1 by {
            if i < n {
                assert(d[i] == fields[i]);
                assert(fields[i].0 != fields[n].0);
            }
        }
        assert forall|k: Seq<char>| #[trigger] m.dom().contains(k) implies exists|i: int|
            0 <= i < fields.len() && (#[trigger] fields[i]).0 == k by {
            if k == fields[n].0 {
            } else {
                assert(fields_map(d).dom().contains(k));
                let i = choose|i: int| 0 <= i < d.len() && (#[trigger] d[i]).0 == k;
                assert(fields[i].0 == k);
            }
        }
    }
}

/// Text without a percent sign or a plus sign stands for itself.
pub proof fn plain_text_stands_for_itself(s: Seq<char>)
    requires
        forall|i: int| 0 <= i < s.len() ==> (#[trigger] s[i]) != '%' && s[i] != '+',
    ensures
        decodable(s),
        url_decoded(s) == s,
{
    reveal_strlit("+");
    assert("+"@ == seq!['+']);
    search::lemma_replaced_char(s, '+', " "@);
    search::lemma_spelled_plain(s, '+', search::swap_char('+', " "@));
    let b = encode_utf8(s);
    lemma_no_percent(s);
    let none = Seq::<u8>::empty();
    lemma_decoded_plain(b, none);
    assert(b + none == b);
    bytes::lemma_text_of_encoded(s);
}

/// Only a percent sign is encoded with its byte.
proof fn lemma_no_percent(s: Seq<char>)
    requires
        forall|i: int| 0 <= i < s.len() ==> #[trigger] s[i] != '%',
    ensures
        forall|i: int| 0 <= i < encode_utf8(s).len() ==> #[trigger] encode_utf8(s)[i] != 37,
    decreases s.len(),
{
    if s.len() > 0 {
        let first = encode_scalar(s[0] as u32);
        let d = s.drop_first();
        let rest = encode_utf8(d);
        lemma_char_no_percent(s[0]);
        assert forall|i: int| 0 <= i < d.len() implies #[trigger] d[i] != '%' by {
            assert(d[i] == s[i + 1]);
        }
        lemma_no_percent(d);
        assert forall|i: int| 0 <= i < encode_utf8(s).len() implies #[trigger] encode_utf8(s)[i]
            != 37 by {
            if i < first.len() {
                assert(encode_utf8(s)[i] == first[i]);
            } else {
                assert(encode_utf8(s)[i] == rest[i - first.len()]);
            }
        }
    }
}

proof fn lemma_char_no_percent(c: char)
    requires
        c != '%',
    ensures
        forall|i: int|
            0 <= i < encode_scalar(c as u32).len() ==> #[trigger] encode_scalar(c as u32)[i] != 37,
{
    let v = c as u32;
    assert(v != 37);
    assert(v <= 0x7f ==> (v & 0x7f) as u8 == v) by (bit_vector);
    assert(0xC0 | ((v >> 6) & 0x1F) as u8 != 37u8) by (bit_vector);
    assert(0xE0 | ((v >> 12) & 0x0F) as u8 != 37u8) by (bit_vector);
    assert(0xF0 | ((v >> 18) & 0x7) as u8 != 37u8) by (bit_vector);
    assert(0x80 | (v & 0x3F) as u8 != 37u8) by (bit_vector);
    assert(0x80 | ((v >> 6) & 0x3F) as u8 != 37u8) by (bit_vector);
    assert(0x80 | ((v >> 12) & 0x3F) as u8 != 37u8) by (bit_vector);
}

/// Bytes without a percent sign are decoded as they are.
proof fn lemma_decoded_plain(b: Seq<u8>, rest: Seq<u8>)
    requires
        forall|i: int| 0 <= i < b.len() ==> #[trigger] b[i] != 37,
    ensures
        decoded_bytes(b + rest) == b + decoded_bytes(rest),
        cleanly_cut(b + rest) == cleanly_cut(rest),
    decreases b.len(),
{
    if b.len() == 0 {
        assert(b + rest == rest);
        assert(b + decoded_bytes(rest) == decoded_bytes(rest));
    } else {
        let d = b.drop_first();
        assert forall|i: int| 0 <= i < d.len() implies #[trigger] d[i] != 37 by {
            assert(d[i] == b[i + 1]);
        }
        lemma_decoded_plain(d, rest);
        assert((b + rest)[0] == b[0]);
        assert((b + rest).drop_first() == d + rest);
        assert(seq![b[0]] + (d + decoded_bytes(rest)) == b + decoded_bytes(rest));
    }
}

/// A plus sign in a form is a space, between whatever texts it stands.
pub proof fn plus_means_space(a: Seq<char>, b: Seq<char>)
    ensures
        decodable(url_encoded(a) + seq!['+'] + url_encoded(b)),
        url_decoded(url_encoded(a) + seq!['+'] + url_encoded(b)) == a + seq![' '] + b,
{
    reveal_strlit("+");
    reveal_strlit(" ");
    assert("+"@ == seq!['+']);
    assert(" "@ == seq![' ']);
    let x = url_encoded(a);
    let y = url_encoded(b);
    let s = x + seq!['+'] + y;
    let f = search::swap_char('+', " "@);
    search::lemma_replaced_char(s, '+', " "@);
    lemma_encoded_plain(encode_utf8(a));
    lemma_encoded_plain(encode_utf8(b));
    search::lemma_spelled_add(x + seq!['+'], y, f);
    search::lemma_spelled_push(x, '+', f);
    assert(x.push('+') == x + seq!['+']);
    search::lemma_spelled_plain(x, '+', f);
    search::lemma_spelled_plain(y, '+', f);
    let t = x + seq![' '] + y;
    assert(search::replaced(s, "+"@, " "@) == t);
    let none = Seq::<u8>::empty();
    let space = encode_utf8(seq![' ']);
    assert(is_ascii_chars(seq![' '])) by {
        assert forall|i: int| 0 <= i < 1 implies '\0' <= #[trigger] seq![' '][i] <= '\u{7f}' by {}
    }
    is_ascii_chars_encode_utf8(seq![' ']);
    assert(space == seq![32u8]);
    bytes::lemma_encode_add(x + seq![' '], y);
    bytes::lemma_encode_add(x, seq![' ']);
    let ey = encode_utf8(y);
    lemma_decode_all(encode_utf8(b), none);
    assert(ey + none == ey);
    assert(encode_utf8(b) + decoded_bytes(none) == encode_utf8(b));
    lemma_decoded_plain(space, ey);
    let tail = space + ey;
    assert(tail[0] == 32);
    lemma_decode_all(encode_utf8(a), tail);
    assert(encode_utf8(t) == encode_utf8(x) + tail);
    bytes::lemma_encode_add(a + seq![' '], b);
    bytes::lemma_encode_add(a, seq![' ']);
    assert(decoded_bytes(encode_utf8(t)) == encode_utf8(a + seq![' '] + b)) by {
        assert(encode_utf8(a) + (space + encode_utf8(b)) == encode_utf8(a) + space + encode_utf8(b));
    }
    bytes::lemma_text_of_encoded(a + seq![' '] + b);
}

/// A byte that is encoded with small letters is the same as with capitals.
pub proof fn small_hexadecimal_digits_count(high: u8, low: u8, rest: Seq<u8>)
    requires
        high < 16,
        low < 16,
    ensures
        decoded_bytes(
            seq![37u8, bytes::hex_char(high as int) as u8, bytes::hex_char(low as int) as u8] + rest,
        ) == seq![(16 * high + low) as u8] + decoded_bytes(rest),
        decoded_bytes(
            seq![37u8, bytes::hex_upper(high as int) as u8, bytes::hex_upper(low as int) as u8]
                + rest,
        ) == seq![(16 * high + low) as u8] + decoded_bytes(rest),
{
    let a = seq![37u8, bytes::hex_char(high as int) as u8, bytes::hex_char(low as int) as u8] + rest;
    let b = seq![37u8, bytes::hex_upper(high as int) as u8, bytes::hex_upper(low as int) as u8]
        + rest;
    assert(a.skip(3) == rest);
    assert(b.skip(3) == rest);
    assert(hex_value(a[1]) == Some(high as int) && hex_value(a[2]) == Some(low as int));
    assert(hex_value(b[1]) == Some(high as int) && hex_value(b[2]) == Some(low as int));
}

/// A field without an equals sign has an empty value, and nothing between two marks is no
/// field.
pub proof fn bare_fields_are_empty(ps: Seq<Seq<char>>, name: Seq<char>)
    requires
        forall|i: int| 0 <= i < name.len() ==> #[trigger] name[i] != '=',
    ensures
        pair_of(name) == (name, Seq::<char>::empty()),
        pairs_map(ps.push(Seq::empty())) == pairs_map(ps),
{
    split::lemma_first_of_is(name, '=', name.len() as int);
    assert(ps.push(Seq::<char>::empty()).drop_last() == ps);
}

} // verus!
