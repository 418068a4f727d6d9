//! JSON text and JSON values.

use vstd::prelude::*;
use vstd::string::*;

use crate::bytes;
use crate::search;
use crate::split;
use crate::text;

verus! {

/// How one character is written inside a JSON string.
pub open spec fn json_char(c: char) -> Seq<char> {
    let n = c as u32;
    if c == '"' {
        seq!['\\', '"']
    } else if c == '\\' {
        seq!['\\', '\\']
    } else if n == 8 {
        seq!['\\', 'b']
    } else if n == 9 {
        seq!['\\', 't']
    } else if n == 10 {
        seq!['\\', 'n']
    } else if n == 12 {
        seq!['\\', 'f']
    } else if n == 13 {
        seq!['\\', 'r']
    } else if n < 32 {
        seq!['\\', 'u', '0', '0', bytes::hex_char(n as int / 16), bytes::hex_char(n as int % 16)]
    } else {
        seq![c]
    }
}

/// `s` as a JSON string.
pub open spec fn json_text(s: Seq<char>) -> Seq<char> {
    seq!['"'] + search::spelled(s, |c: char| json_char(c)) + seq!['"']
}

/// The strings as a JSON array.
pub open spec fn json_list(v: Seq<Seq<char>>) -> Seq<char> {
    seq!['['] + split::joined(v.map_values(|s: Seq<char>| json_text(s)), seq![',']) + seq![']']
}

/// `serde_json::to_string` of a string: quotes around it, with quotes, backslashes
/// and control characters escaped. It fails on no string.
#[verifier::external_body]
pub(crate) fn quoted(s: &str) -> (r: String)
    ensures
        r@ == json_text(s@),
{
    serde_json::to_string(s).unwrap()
}

/// `serde_json::to_string` of a list of strings: an array of JSON strings without
/// white space. It fails on no list.
#[verifier::external_body]
pub(crate) fn quoted_list(v: &Vec<String>) -> (r: String)
    ensures
        r@ == json_list(text::views(v@)),
{
    serde_json::to_string(v).unwrap()
}

/// A JSON value. Numbers are kept as they are written.
#[derive(Debug)]
pub enum Json {
    Null,
    Bool(bool),
    Number(String),
    Text(String),
    List(Vec<Json>),
    Object(Vec<(String, Json)>),
}

/// What a [`Json`] holds.
#[verifier::ext_equal]
pub enum JsonView {
    Null,
    Bool(bool),
    Number(Seq<char>),
    Text(Seq<char>),
    List(Seq<JsonView>),
    Object(Seq<(Seq<char>, JsonView)>),
}

/// What a [`Json`] holds.
pub open spec fn json_view(j: Json) -> JsonView
    decreases j,
{
    match j {
        Json::Null => JsonView::Null,
        Json::Bool(b) => JsonView::Bool(b),
        Json::Number(n) => JsonView::Number(n@),
        Json::Text(s) => JsonView::Text(s@),
        Json::List(v) => JsonView::List(
            Seq::new(
                v@.len(),
                |i: int|
                    if 0 <= i < v@.len() {
                        json_view(v@[i])
                    } else {
                        JsonView::Null
                    },
            ),
        ),
        Json::Object(v) => JsonView::Object(
            Seq::new(
                v@.len(),
                |i: int|
                    if 0 <= i < v@.len() {
                        (v@[i].0@, json_view(v@[i].1))
                    } else {
                        (Seq::empty(), JsonView::Null)
                    },
            ),
        ),
    }
}

impl View for Json {
    type V = JsonView;

    open spec fn view(&self) -> JsonView {
        json_view(*self)
    }
}

/// The values of a list.
pub open spec fn items_view(v: Seq<Json>) -> Seq<JsonView> {
    v.map_values(|j: Json| j@)
}

/// The fields of an object.
pub open spec fn fields_view(v: Seq<(String, Json)>) -> Seq<(Seq<char>, JsonView)> {
    v.map_values(|f: (String, Json)| (f.0@, f.1@))
}

/// A list of values.
pub fn list(v: Vec<Json>) -> (r: Json)
    ensures
        r@ == JsonView::List(items_view(v@)),
{
    let ghost items = items_view(v@);
    let r = Json::List(v);
    assert(r@->List_0 == items);
    r
}

/// A list of texts.
pub fn text_list(v: &Vec<String>) -> (r: Json)
    ensures
        r@ == JsonView::List(text::views(v@).map_values(|s: Seq<char>| JsonView::Text(s))),
{
    let mut out: Vec<Json> = Vec::new();
    let mut i: usize = 0;
    let ghost all = text::views(v@).map_values(|s: Seq<char>| JsonView::Text(s));
    while i < v.len()
        invariant
            i <= v@.len(),
            all == text::views(v@).map_values(|s: Seq<char>| JsonView::Text(s)),
            items_view(out@) == all.take(i as int),
        decreases v@.len() - i,
    {
        let ghost before = out@;
        let j = text(v[i].as_str());
        out.push(j);
        assert(items_view(out@) == items_view(before).push(j@));
        assert(all.take(i + 1) == all.take(i as int).push(all[i as int]));
        i = i + 1;
    }
    assert(all.take(i as int) == all);
    list(out)
}

/// An object.
pub fn object(v: Vec<(String, Json)>) -> (r: Json)
    ensures
        r@ == JsonView::Object(fields_view(v@)),
{
    let ghost fields = fields_view(v@);
    let r = Json::Object(v);
    assert(r@->Object_0 == fields);
    r
}

/// A text.
pub fn text(s: &str) -> (r: Json)
    ensures
        r@ == JsonView::Text(s@),
{
    Json::Text(s.to_owned())
}

/// A text, or null.
pub fn text_or_null(o: &Option<String>) -> (r: Json)
    ensures
        r@ == opt_text(text::opt_view(*o)),
{
    match o {
        Some(s) => text(s.as_str()),
        None => Json::Null,
    }
}

/// A text, or null.
pub open spec fn opt_text(o: Option<Seq<char>>) -> JsonView {
    match o {
        Some(s) => JsonView::Text(s),
        None => JsonView::Null,
    }
}

/// A number.
pub fn number(n: u64) -> (r: Json)
    ensures
        r@ == JsonView::Number(text::decimal_of(n as nat)),
{
    Json::Number(text::decimal(n))
}

/// An object with one more field at its end.
pub fn put(v: &mut Vec<(String, Json)>, key: &str, value: Json)
    ensures
        fields_view(final(v)@) == fields_view(old(v)@).push((key@, value@)),
{
    let ghost before = v@;
    v.push((key.to_owned(), value));
    assert(fields_view(v@) == fields_view(before).push((key@, value@)));
}

/// The value of the first field with this name.
pub open spec fn field_of(v: Seq<(String, Json)>, key: Seq<char>) -> Option<Json>
    decreases v.len(),
{
    if v.len() == 0 {
        None
    } else if v[0].0@ == key {
        Some(v[0].1)
    } else {
        field_of(v.drop_first(), key)
    }
}

impl Json {
    /// The value of a field; only objects have fields.
    pub open spec fn field(self, key: Seq<char>) -> Option<Json> {
        match self {
            Json::Object(v) => field_of(v@, key),
            _ => None,
        }
    }

    /// The text, if this is one.
    pub open spec fn as_text(self) -> Option<Seq<char>> {
        match self {
            Json::Text(s) => Some(s@),
            _ => None,
        }
    }

    /// The text of a field, if it has one.
    pub open spec fn field_text(self, key: Seq<char>) -> Option<Seq<char>> {
        match self.field(key) {
            Some(j) => j.as_text(),
            None => None,
        }
    }

    /// The value of a field; only objects have fields.
    pub fn get(&self, key: &str) -> (r: Option<&Json>)
        ensures
            match r {
                Some(j) => self.field(key@) == Some(*j),
                None => self.field(key@) is None,
            },
    {
        match self {
            Json::Object(v) => {
                let mut i: usize = 0;
                assert(v@.skip(0) == v@);
                while i < v.len()
                    invariant
                        i <= v@.len(),
                        *self == Json::Object(*v),
                        field_of(v@, key@) == field_of(v@.skip(i as int), key@),
                    decreases v@.len() - i,
                {
                    let ghost rest = v@.skip(i as int);
                    assert(rest[0] == v@[i as int]);
                    assert(rest.drop_first() == v@.skip(i + 1));
                    if text::same(v[i].0.as_str(), key) {
                        return Some(&v[i].1);
                    }
                    i = i + 1;
                }
                None
            },
            _ => None,
        }
    }

    /// The text of a field, if it has one.
    pub fn get_text(&self, key: &str) -> (r: Option<&str>)
        ensures
            text::opt_str(r) == self.field_text(key@),
    {
        match self.get(key) {
            Some(Json::Text(s)) => Some(s.as_str()),
            _ => None,
        }
    }
}

/// A copy of a value.
pub fn copy(j: &Json) -> (r: Json)
    ensures
        r@ == j@,
    decreases j,
{
    match j {
        Json::Null => Json::Null,
        Json::Bool(b) => Json::Bool(*b),
        Json::Number(n) => Json::Number(n.clone()),
        Json::Text(s) => Json::Text(s.clone()),
        Json::List(v) => {
            let mut out: Vec<Json> = Vec::new();
            let mut i: usize = 0;
            while i < v.len()
                invariant
                    i <= v@.len(),
                    *j == Json::List(*v),
                    out@.len() == i,
                    forall|k: int| 0 <= k < i ==> (#[trigger] out@[k])@ == v@[k]@,
                decreases v@.len() - i,
            {
                proof {
                    assert(decreases_to!(*j => j->List_0));
                    assert(decreases_to!(*v => v@));
                    assert(decreases_to!(v@ => v@[i as int]));
                }
                out.push(copy(&v[i]));
                i = i + 1;
            }
            assert(items_view(out@) == items_view(v@));
            let r = list(out);
            assert(j@->List_0 == items_view(v@));
            r
        },
        Json::Object(v) => {
            let mut out: Vec<(String, Json)> = Vec::new();
            let mut i: usize = 0;
            while i < v.len()
                invariant
                    i <= v@.len(),
                    *j == Json::Object(*v),
                    out@.len() == i,
                    forall|k: int|
                        0 <= k < i ==> (#[trigger] out@[k]).0@ == v@[k].0@ && out@[k].1@ == v@[k].1@,
                decreases v@.len() - i,
            {
                proof {
                    assert(decreases_to!(*j => j->Object_0));
                    assert(decreases_to!(*v => v@));
                    assert(decreases_to!(v@ => v@[i as int]));
                    assert(decreases_to!(v@[i as int] => v@[i as int].1));
                }
                out.push((v[i].0.clone(), copy(&v[i].1)));
                i = i + 1;
            }
            assert(fields_view(out@) == fields_view(v@));
            let r = object(out);
            assert(j@->Object_0 == fields_view(v@));
            r
        },
    }
}

/// A list of texts in JSON holds every one of them in JSON.
pub proof fn lists_hold_their_items(v: Seq<Seq<char>>)
    ensures
        forall|i: int|
            0 <= i < v.len() ==> search::occurs(json_list(v), json_text(#[trigger] v[i])),
{
    let q = v.map_values(|s: Seq<char>| json_text(s));
    assert forall|i: int| 0 <= i < v.len() implies search::occurs(
        json_list(v),
        json_text(#[trigger] v[i]),
    ) by {
        assert(q[i] == json_text(v[i]));
        search::lemma_joined_has(q, seq![','], i);
        search::lemma_occurs_within(seq!['['], split::joined(q, seq![',']), seq![']'], q[i]);
    }
}

/// The field of an object is the first with its key.
pub proof fn fields_are_found_by_their_key(
    before: Seq<(String, Json)>,
    entry: (String, Json),
    after: Seq<(String, Json)>,
)
    requires
        forall|i: int| 0 <= i < before.len() ==> (#[trigger] before[i]).0@ != entry.0@,
    ensures
        field_of(before + seq![entry] + after, entry.0@) == Some(entry.1),
        field_of(before, entry.0@) is None,
    decreases before.len(),
{
    let all = before + seq![entry] + after;
    if before.len() == 0 {
        assert(all[0] == entry);
    } else {
        let d = before.drop_first();
        assert forall|i: int| 0 <= i < d.len() implies (#[trigger] d[i]).0@ != entry.0@ by {
            assert(d[i] == before[i + 1]);
        }
        fields_are_found_by_their_key(d, entry, after);
        assert(all[0] == before[0]);
        assert(all.drop_first() == d + seq![entry] + after);
    }
}

} // verus!
