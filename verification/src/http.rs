//! Requests to the drop server and its responses, as bytes.

use vstd::prelude::*;
use vstd::string::*;
use vstd::utf8::*;

use crate::bytes;
use crate::extract::glue;
use crate::numbers;
use crate::search;
use crate::split;
use crate::text;

verus! {

/// The most bytes of a body that are taken.
pub const BODY_LIMIT: usize = 33_554_432;

/// A blank line starts at the beginning of `b`.
pub open spec fn blank_line(b: Seq<u8>) -> bool {
    b.len() >= 4 && b[0] == 13 && b[1] == 10 && b[2] == 13 && b[3] == 10
}

/// Where the head of a request ends: behind the first blank line.
pub open spec fn head_end(b: Seq<u8>) -> Option<int>
    decreases b.len(),
{
    if b.len() < 4 {
        None
    } else if blank_line(b) {
        Some(4)
    } else {
        match head_end(b.drop_first()) {
            Some(i) => Some(i + 1),
            None => None,
        }
    }
}

/// Where the head of a request ends.
pub fn find_header_end(buf: &[u8]) -> (r: Option<usize>)
    ensures
        match r {
            Some(i) => head_end(buf@) == Some(i as int) && i <= buf@.len(),
            None => head_end(buf@) is None,
        },
{
    let n: usize = buf.len();
    let mut i: usize = 0;
    assert(buf@.skip(0) == buf@);
    while i < n && n - i >= 4
        invariant
            n == buf@.len(),
            i <= n,
            head_end(buf@) == (match head_end(buf@.skip(i as int)) {
                Some(k) => Some(k + i),
                None => None,
            }),
        decreases n - i,
    {
        let ghost rest = buf@.skip(i as int);
        assert(rest[0] == buf@[i as int] && rest[1] == buf@[i + 1] && rest[2] == buf@[i + 2]
            && rest[3] == buf@[i + 3]);
        if buf[i] == 13 && buf[i + 1] == 10 && buf[i + 2] == 13 && buf[i + 3] == 10 {
            return Some(i + 4);
        }
        assert(rest.drop_first() == buf@.skip(i + 1));
        i = i + 1;
    }
    None
}

/// The length of the body that the head announces: that of the first line that gives
/// one, if it is a number.
pub open spec fn announced(lines: Seq<Seq<char>>) -> Option<usize>
    decreases lines.len(),
{
    if lines.len() == 0 {
        None
    } else {
        let l = text::lowered(lines[0]);
        if text::begins(l, "content-length:"@) {
            numbers::parsed_usize(text::trimmed(l.skip("content-length:"@.len() as int)))
        } else {
            announced(lines.drop_first())
        }
    }
}

/// The length of the body that the head announces.
pub fn parse_content_length(headers: &str) -> (r: Option<usize>)
    ensures
        r == announced(split::lines_of(headers@)),
{
    let lines = split::lines(headers);
    let ghost all = text::views(lines@);
    let mut i: usize = 0;
    assert(all.skip(0) == all);
    while i < lines.len()
        invariant
            i <= lines@.len(),
            all == text::views(lines@),
            all == split::lines_of(headers@),
            announced(all) == announced(all.skip(i as int)),
        decreases lines@.len() - i,
    {
        let ghost rest = all.skip(i as int);
        assert(rest[0] == lines@[i as int]@);
        assert(rest.drop_first() == all.skip(i + 1));
        let lower = text::to_lower(lines[i].as_str());
        if let Some(v) = text::after_prefix(lower.as_str(), "content-length:") {
            return numbers::parse_usize(text::trim(v));
        }
        i = i + 1;
    }
    None
}

/// The value of the first line whose name is `want`, which is in small letters.
pub open spec fn header_value(lines: Seq<Seq<char>>, want: Seq<char>) -> Option<Seq<char>>
    decreases lines.len(),
{
    if lines.len() == 0 {
        None
    } else {
        match split::cut(lines[0], ':') {
            Some((k, v)) => if text::lowered(text::trimmed(k)) == want {
                Some(text::trimmed(v))
            } else {
                header_value(lines.drop_first(), want)
            },
            None => header_value(lines.drop_first(), want),
        }
    }
}

/// The value of a header, whatever the case of its name.
pub fn parse_header(headers: &str, name: &str) -> (r: Option<String>)
    ensures
        text::opt_view(r) == header_value(split::lines_of(headers@), text::lowered(name@)),
{
    let want = text::to_lower(name);
    let lines = split::lines(headers);
    let ghost all = text::views(lines@);
    let mut i: usize = 0;
    assert(all.skip(0) == all);
    while i < lines.len()
        invariant
            i <= lines@.len(),
            all == text::views(lines@),
            all == split::lines_of(headers@),
            want@ == text::lowered(name@),
            header_value(all, want@) == header_value(all.skip(i as int), want@),
        decreases lines@.len() - i,
    {
        let ghost rest = all.skip(i as int);
        assert(rest[0] == lines@[i as int]@);
        assert(rest.drop_first() == all.skip(i + 1));
        if let Some((k, v)) = split::split_once(lines[i].as_str(), ':') {
            let key = text::to_lower(text::trim(k.as_str()));
            if text::same(key.as_str(), want.as_str()) {
                return Some(text::trim(v.as_str()).to_owned());
            }
        }
        i = i + 1;
    }
    None
}

/// Method and path of a request line, without what follows a question mark. What is
/// missing is taken for `GET` and `/`.
pub open spec fn request_of(line: Seq<char>) -> (Seq<char>, Seq<char>) {
    let w = split::words_of(line);
    (
        if w.len() > 0 {
            w[0]
        } else {
            "GET"@
        },
        split::pieces(
            if w.len() > 1 {
                w[1]
            } else {
                "/"@
            },
            '?',
        )[0],
    )
}

/// Method and path of a request line.
pub fn parse_request_line(line: &str) -> (r: (String, String))
    ensures
        (r.0@, r.1@) == request_of(line@),
{
    let w = split::words(line);
    let ghost ws = split::words_of(line@);
    assert(w@.len() > 0 ==> ws[0] == w@[0]@);
    assert(w@.len() > 1 ==> ws[1] == w@[1]@);
    let method = if w.len() > 0 {
        w[0].clone()
    } else {
        "GET".to_owned()
    };
    let target = if w.len() > 1 {
        w[1].clone()
    } else {
        "/".to_owned()
    };
    let parts = split::split(target.as_str(), '?');
    assert(text::views(parts@)[0] == parts@[0]@);
    (method, parts[0].clone())
}

/// A request that was received.
#[derive(Debug, Clone)]
pub struct Request {
    pub method: String,
    pub path: String,
    pub content_type: String,
    pub body: Vec<u8>,
}

/// The first line of the head, or nothing.
pub open spec fn first_line_of(head: Seq<char>) -> Seq<char> {
    let l = split::lines_of(head);
    if l.len() > 0 {
        l[0]
    } else {
        Seq::empty()
    }
}

impl Request {
    /// The request has this head and this body.
    pub open spec fn is(self, head: Seq<u8>, body: Seq<u8>) -> bool {
        let h = bytes::strict_text_of(head);
        &&& (self.method@, self.path@) == request_of(first_line_of(h))
        &&& self.content_type@ == (match header_value(split::lines_of(h), "content-type"@) {
            Some(v) => v,
            None => Seq::empty(),
        })
        &&& self.body@ == body
    }
}

/// A response.
#[derive(Debug, Clone)]
pub struct Response {
    pub code: u16,
    pub content_type: String,
    pub body: Vec<u8>,
}

impl Response {
    /// The response is a page with this text.
    pub open spec fn is_html(self, code: u16, html: Seq<char>) -> bool {
        self.code == code && self.content_type@ == "text/html; charset=utf-8"@ && self.body@
            == encode_utf8(html)
    }

    /// The response is JSON with this text.
    pub open spec fn is_json(self, code: u16, json: Seq<char>) -> bool {
        self.code == code && self.content_type@ == "application/json; charset=utf-8"@ && self.body@
            == encode_utf8(json)
    }
}

/// A page as a response.
pub fn html_response(code: u16, html: &str) -> (r: Response)
    ensures
        r.is_html(code, html@),
{
    Response {
        code,
        content_type: "text/html; charset=utf-8".to_owned(),
        body: bytes::bytes_of(html),
    }
}

/// JSON as a response.
pub fn json_response(code: u16, json: &str) -> (r: Response)
    ensures
        r.is_json(code, json@),
{
    Response {
        code,
        content_type: "application/json; charset=utf-8".to_owned(),
        body: bytes::bytes_of(json),
    }
}

/// What a status code means.
pub open spec fn reason_text(code: u16) -> Seq<char> {
    if code == 200 {
        "OK"@
    } else if code == 204 {
        "No Content"@
    } else if code == 400 {
        "Bad Request"@
    } else if code == 404 {
        "Not Found"@
    } else if code == 413 {
        "Payload Too Large"@
    } else {
        "Error"@
    }
}

fn reason(code: u16) -> (r: &'static str)
    ensures
        r@ == reason_text(code),
{
    if code == 200 {
        "OK"
    } else if code == 204 {
        "No Content"
    } else if code == 400 {
        "Bad Request"
    } else if code == 404 {
        "Not Found"
    } else if code == 413 {
        "Payload Too Large"
    } else {
        "Error"
    }
}

/// The head of a response.
pub open spec fn response_head(code: u16, content_type: Seq<char>, len: nat) -> Seq<char> {
    "HTTP/1.1 "@ + text::decimal_of(code as nat) + " "@ + reason_text(code) + "\r\nContent-Type: "@
        + content_type + "\r\nAccess-Control-Allow-Origin: *\r\nContent-Length: "@
        + text::decimal_of(len) + "\r\nConnection: close\r\n\r\n"@
}

/// A response as bytes.
pub open spec fn response_wire(r: Response) -> Seq<u8> {
    encode_utf8(response_head(r.code, r.content_type@, r.body@.len())) + r.body@
}

/// A response as bytes.
pub fn response_bytes(resp: &Response) -> (r: Vec<u8>)
    ensures
        r@ == response_wire(*resp),
{
    let mut head = glue("HTTP/1.1 ", text::decimal(resp.code as u64).as_str());
    head.append(" ");
    head.append(reason(resp.code));
    head.append("\r\nContent-Type: ");
    head.append(resp.content_type.as_str());
    head.append("\r\nAccess-Control-Allow-Origin: *\r\nContent-Length: ");
    head.append(text::decimal(resp.body.len() as u64).as_str());
    head.append("\r\nConnection: close\r\n\r\n");
    let mut out = bytes::bytes_of(head.as_str());
    let mut i: usize = 0;
    let ghost h = out@;
    assert(out@ == h + resp.body@.take(0));
    while i < resp.body.len()
        invariant
            i <= resp.body@.len(),
            out@ == h + resp.body@.take(i as int),
        decreases resp.body@.len() - i,
    {
        out.push(resp.body[i]);
        assert(resp.body@.take(i + 1) == resp.body@.take(i as int).push(resp.body@[i as int]));
        i = i + 1;
    }
    assert(resp.body@.take(i as int) == resp.body@);
    out
}

/// A request whose head is complete and whose body is being received.
#[derive(Debug, Clone)]
pub struct Receiving {
    pub head: Vec<u8>,
    pub content_len: usize,
    pub body: Vec<u8>,
}

/// What is known after some bytes have come in.
#[derive(Debug, Clone)]
pub enum Received {
    /// Nothing was sent.
    Nothing,
    /// The request is refused.
    Refused(Response),
    /// More has to be read.
    More(Receiving),
    /// The request is complete.
    Complete(Request),
}

/// The bytes that were announced, of those that came.
pub open spec fn cut_to(body: Seq<u8>, len: int) -> Seq<u8> {
    if body.len() > len {
        body.take(len)
    } else {
        body
    }
}

/// What is known of a body as it comes in.
pub enum BodyState {
    /// These bytes came, and more are needed.
    Waiting(Seq<u8>),
    /// The body is complete.
    Whole(Seq<u8>),
    /// The body is too large.
    TooLarge,
}

/// A body after one more piece, which is not empty.
pub open spec fn body_after(s: BodyState, len: usize, chunk: Seq<u8>) -> BodyState {
    match s {
        BodyState::Waiting(b) => if b.len() + chunk.len() > BODY_LIMIT {
            BodyState::TooLarge
        } else if b.len() + chunk.len() < len {
            BodyState::Waiting(b + chunk)
        } else {
            BodyState::Whole(cut_to(b + chunk, len as int))
        },
        _ => s,
    }
}

/// A body of which this much came at first.
pub open spec fn body_at_first(body: Seq<u8>, len: usize) -> BodyState {
    if body.len() < len {
        BodyState::Waiting(body)
    } else {
        BodyState::Whole(cut_to(body, len as int))
    }
}

/// What is known says this of the body of a request with this head.
pub open spec fn shows(r: Received, head: Seq<u8>, len: usize, s: BodyState) -> bool {
    match s {
        BodyState::Waiting(b) => r matches Received::More(m) && m.head@ == head && m.content_len
            == len && m.body@ == b,
        BodyState::Whole(b) => r matches Received::Complete(q) && q.is(head, b),
        BodyState::TooLarge => r matches Received::Refused(p) && p.is_html(
            413,
            "<html><body><h1>Payload too large</h1></body></html>"@,
        ),
    }
}

/// Puts a request together.
fn complete(head: &Vec<u8>, content_len: usize, body: Vec<u8>) -> (r: Request)
    ensures
        r.is(head@, cut_to(body@, content_len as int)),
{
    let headers = bytes::decode_or_empty(head.as_slice());
    let lines = split::lines(headers);
    assert(lines@.len() > 0 ==> split::lines_of(headers@)[0] == lines@[0]@);
    let (method, path) = if lines.len() > 0 {
        parse_request_line(lines[0].as_str())
    } else {
        parse_request_line(String::new().as_str())
    };
    proof {
        reveal_strlit("content-type");
    }
    assert(text::lowered("content-type"@) == "content-type"@);
    let content_type = match parse_header(headers, "content-type") {
        Some(v) => v,
        None => String::new(),
    };
    let mut body = body;
    if body.len() > content_len {
        body.truncate(content_len);
    }
    Request { method, path, content_type, body }
}

/// Looks at the first bytes of a connection.
pub fn receive_first(first: &[u8]) -> (r: Received)
    ensures
        if first@.len() == 0 {
            r is Nothing
        } else {
            match head_end(first@) {
                None => r matches Received::Refused(p) && p.is_html(
                    400,
                    "<html><body><h1>Incomplete request</h1></body></html>"@,
                ),
                Some(e) => shows(
                    r,
                    first@.take(e),
                    announced_len(first@.take(e)),
                    body_at_first(first@.skip(e), announced_len(first@.take(e))),
                ),
            }
        },
{
    if first.len() == 0 {
        return Received::Nothing;
    }
    match find_header_end(first) {
        None => Received::Refused(
            html_response(400, "<html><body><h1>Incomplete request</h1></body></html>"),
        ),
        Some(e) => {
            let n: usize = first.len();
            let head = copy_between(first, 0, e);
            let body = copy_between(first, e, n);
            assert(first@.subrange(0, e as int) == first@.take(e as int));
            assert(first@.subrange(e as int, n as int) == first@.skip(e as int));
            let content_len = match parse_content_length(bytes::decode_or_empty(head.as_slice())) {
                Some(n) => n,
                None => 0,
            };
            settle(head, content_len, body)
        },
    }
}

/// The length of the body that a head announces; none counts as zero.
pub open spec fn announced_len(head: Seq<u8>) -> usize {
    match announced(split::lines_of(bytes::strict_text_of(head))) {
        Some(n) => n,
        None => 0,
    }
}

/// A part of some bytes.
fn copy_between(b: &[u8], i: usize, j: usize) -> (r: Vec<u8>)
    requires
        i <= j <= b@.len(),
    ensures
        r@ == b@.subrange(i as int, j as int),
{
    let mut out: Vec<u8> = Vec::new();
    let mut k: usize = i;
    while k < j
        invariant
            i <= k <= j <= b@.len(),
            out@ == b@.subrange(i as int, k as int),
        decreases j - k,
    {
        out.push(b[k]);
        k = k + 1;
    }
    out
}

/// Goes on reading, or puts the request together.
fn settle(head: Vec<u8>, content_len: usize, body: Vec<u8>) -> (r: Received)
    ensures
        shows(r, head@, content_len, body_at_first(body@, content_len)),
{
    if body.len() < content_len {
        Received::More(Receiving { head, content_len, body })
    } else {
        Received::Complete(complete(&head, content_len, body))
    }
}

impl Receiving {
    /// Takes in more bytes. None means that the sender is done: the request is then
    /// complete as it is.
    pub fn receive(self, chunk: &[u8]) -> (r: Received)
        ensures
            if chunk@.len() == 0 {
                r matches Received::Complete(q) && q.is(
                    self.head@,
                    cut_to(self.body@, self.content_len as int),
                )
            } else {
                shows(
                    r,
                    self.head@,
                    self.content_len,
                    body_after(BodyState::Waiting(self.body@), self.content_len, chunk@),
                )
            },
    {
        let n: usize = chunk.len();
        if n == 0 {
            return Received::Complete(complete(&self.head, self.content_len, self.body));
        }
        if self.body.len() > BODY_LIMIT || n > BODY_LIMIT || self.body.len() + n > BODY_LIMIT {
            return Received::Refused(
                html_response(413, "<html><body><h1>Payload too large</h1></body></html>"),
            );
        }
        let mut body = self.body;
        let mut more = copy_between(chunk, 0, n);
        assert(chunk@.subrange(0, n as int) == chunk@);
        body.append(&mut more);
        settle(self.head, self.content_len, body)
    }
}

/// A body after several pieces.
pub open spec fn body_after_all(s: BodyState, len: usize, chunks: Seq<Seq<u8>>) -> BodyState
    decreases chunks.len(),
{
    if chunks.len() == 0 {
        s
    } else {
        body_after(body_after_all(s, len, chunks.drop_last()), len, chunks.last())
    }
}

/// The pieces one after the other.
pub open spec fn flowed(chunks: Seq<Seq<u8>>) -> Seq<u8>
    decreases chunks.len(),
{
    if chunks.len() == 0 {
        Seq::empty()
    } else {
        flowed(chunks.drop_last()) + chunks.last()
    }
}

/// A body is the same however it is cut into pieces on its way: what was announced, of
/// all that came, as long as it is not too large.
pub proof fn bodies_do_not_depend_on_pieces(len: usize, first: Seq<u8>, chunks: Seq<Seq<u8>>)
    requires
        first.len() + flowed(chunks).len() <= BODY_LIMIT,
    ensures
        ({
            let all = first + flowed(chunks);
            body_after_all(body_at_first(first, len), len, chunks) == if all.len() < len {
                BodyState::Waiting(all)
            } else {
                BodyState::Whole(all.take(len as int))
            }
        }),
    decreases chunks.len(),
{
    let all = first + flowed(chunks);
    if chunks.len() == 0 {
        assert(all == first);
        assert(all.len() == len ==> all.take(len as int) == all);
    } else {
        let d = chunks.drop_last();
        bodies_do_not_depend_on_pieces(len, first, d);
        let before = first + flowed(d);
        assert(all == before + chunks.last());
        if before.len() < len {
            assert(cut_to(all, len as int) == all.take(len as int) || all.len() <= len);
            if all.len() == len {
                assert(all.take(len as int) == all);
            }
        } else {
            assert(all.take(len as int) == before.take(len as int));
        }
    }
}

/// The head of a request ends behind the first blank line.
pub proof fn heads_end_at_the_blank_line(all: Seq<u8>, head: Seq<u8>, rest: Seq<u8>)
    requires
        all == head + seq![13u8, 10u8, 13u8, 10u8] + rest,
        forall|i: int| 0 <= i < head.len() ==> !blank_line(#[trigger] all.skip(i)),
    ensures
        head_end(all) == Some(head.len() as int + 4),
    decreases head.len(),
{
    if head.len() == 0 {
        assert(all[0] == 13 && all[1] == 10 && all[2] == 13 && all[3] == 10);
    } else {
        let d = head.drop_first();
        let t = all.drop_first();
        assert(all.skip(0) == all);
        assert(!blank_line(all.skip(0)));
        assert(t == d + seq![13u8, 10u8, 13u8, 10u8] + rest);
        assert forall|i: int| 0 <= i < d.len() implies !blank_line(#[trigger] t.skip(i)) by {
            assert(t.skip(i) == all.skip(i + 1));
        }
        heads_end_at_the_blank_line(t, d, rest);
    }
}

/// A request line names the method and the path; what follows a question mark in the path is
/// left out.
pub proof fn request_lines_name_method_and_path(
    method: Seq<char>,
    path: Seq<char>,
    query: Seq<char>,
    rest: Seq<char>,
)
    requires
        method.len() > 0,
        forall|i: int| 0 <= i < method.len() ==> !text::is_white(#[trigger] method[i]),
        path.len() > 0,
        forall|i: int|
            0 <= i < path.len() ==> !text::is_white(#[trigger] path[i]) && path[i] != '?',
        forall|i: int| 0 <= i < query.len() ==> !text::is_white(#[trigger] query[i]),
    ensures
        request_of(method + seq![' '] + path + seq![' '] + rest) == (method, path),
        request_of(method + seq![' '] + (path + seq!['?'] + query) + seq![' '] + rest) == (
            method,
            path,
        ),
{
    let long = path + seq!['?'] + query;
    assert forall|i: int| 0 <= i < long.len() implies !text::is_white(#[trigger] long[i]) by {
        if i < path.len() {
            assert(long[i] == path[i]);
        } else if i > path.len() {
            assert(long[i] == query[i - path.len() - 1]);
        }
    }
    lemma_two_words(method, path, rest);
    lemma_two_words(method, long, rest);
    split::lemma_first_of_is(path, '?', path.len() as int);
    split::lemma_pieces_add(path, query, '?');
}

/// The first two words of a line.
proof fn lemma_two_words(a: Seq<char>, b: Seq<char>, rest: Seq<char>)
    requires
        a.len() > 0,
        forall|i: int| 0 <= i < a.len() ==> !text::is_white(#[trigger] a[i]),
        b.len() > 0,
        forall|i: int| 0 <= i < b.len() ==> !text::is_white(#[trigger] b[i]),
    ensures
        ({
            let w = split::words_of(a + seq![' '] + b + seq![' '] + rest);
            w.len() >= 2 && w[0] == a && w[1] == b
        }),
{
    let tail = b + seq![' '] + rest;
    split::words_end_at_white_space(a, ' ', tail);
    split::words_end_at_white_space(b, ' ', rest);
    assert(a + seq![' '] + b + seq![' '] + rest == a + seq![' '] + tail);
}

/// The length that a head announces is the number in its first line on it, whatever the case
/// of its letters.
pub proof fn lengths_are_announced(
    before: Seq<Seq<char>>,
    line: Seq<char>,
    after: Seq<Seq<char>>,
    n: usize,
)
    requires
        text::begins(text::lowered(line), "content-length:"@),
        numbers::parsed_usize(
            text::trimmed(text::lowered(line).skip("content-length:"@.len() as int)),
        ) == Some(n),
        forall|i: int|
            0 <= i < before.len() ==> !text::begins(
                text::lowered(#[trigger] before[i]),
                "content-length:"@,
            ),
    ensures
        announced(before + seq![line] + after) == Some(n),
        announced(before) is None,
    decreases before.len(),
{
    let all = before + seq![line] + after;
    if before.len() == 0 {
        assert(all[0] == line);
    } else {
        let d = before.drop_first();
        assert forall|i: int| 0 <= i < d.len() implies !text::begins(
            text::lowered(#[trigger] d[i]),
            "content-length:"@,
        ) by {
            assert(d[i] == before[i + 1]);
        }
        lengths_are_announced(d, line, after, n);
        assert(all[0] == before[0]);
        assert(!text::begins(text::lowered(before[0]), "content-length:"@));
        assert(all.drop_first() == d + seq![line] + after);
    }
}

/// A header is found by its name, whatever the case of its letters, and its value is what
/// stands behind the first colon, without the white space around it.
pub proof fn headers_are_found_by_their_name(
    before: Seq<Seq<char>>,
    name: Seq<char>,
    value: Seq<char>,
    after: Seq<Seq<char>>,
    want: Seq<char>,
)
    requires
        forall|i: int| 0 <= i < name.len() ==> #[trigger] name[i] != ':',
        text::lowered(text::trimmed(name)) == want,
        forall|i: int|
            0 <= i < before.len() ==> match split::cut(#[trigger] before[i], ':') {
                Some(kv) => text::lowered(text::trimmed(kv.0)) != want,
                None => true,
            },
    ensures
        header_value(before + seq![name + seq![':'] + value] + after, want) == Some(
            text::trimmed(value),
        ),
        header_value(before, want) is None,
    decreases before.len(),
{
    let line = name + seq![':'] + value;
    let all = before + seq![line] + after;
    if before.len() == 0 {
        assert(all[0] == line);
        let n = name.len() as int;
        assert forall|k: int| 0 <= k < n implies #[trigger] line[k] != ':' by {
            assert(line[k] == name[k]);
        }
        split::lemma_first_of_is(line, ':', n);
        assert(line.take(n) == name);
        assert(line.skip(n + 1) == value);
    } else {
        let d = before.drop_first();
        assert forall|i: int| 0 <= i < d.len() implies match split::cut(#[trigger] d[i], ':') {
            Some(kv) => text::lowered(text::trimmed(kv.0)) != want,
            None => true,
        } by {
            assert(d[i] == before[i + 1]);
        }
        headers_are_found_by_their_name(d, name, value, after, want);
        assert(all[0] == before[0]);
        assert(all.drop_first() == d + seq![line] + after);
    }
}

/// A response tells its status, its type and the length of its body, ends its head with a
/// blank line, and has its body behind it, as it is.
pub proof fn responses_announce_their_body(r: Response)
    ensures
        ({
            let head = response_head(r.code, r.content_type@, r.body@.len());
            &&& response_wire(r).take(encode_utf8(head).len() as int) == encode_utf8(head)
            &&& response_wire(r).skip(encode_utf8(head).len() as int) == r.body@
            &&& text::begins(head, "HTTP/1.1 "@ + text::decimal_of(r.code as nat) + " "@)
            &&& search::occurs(head, "Content-Type: "@ + r.content_type@)
            &&& search::occurs(head, "Content-Length: "@ + text::decimal_of(r.body@.len()) + "\r\n"@)
            &&& text::ends(head, "\r\n\r\n"@)
        }),
{
    let len = text::decimal_of(r.body@.len());
    let head = response_head(r.code, r.content_type@, r.body@.len());
    let origin = "\r\nAccess-Control-Allow-Origin: *\r\n"@;
    let close = "Connection: close"@;
    assert("\r\nContent-Type: "@ == "\r\n"@ + "Content-Type: "@) by {
        reveal_strlit("\r\nContent-Type: ");
        reveal_strlit("\r\n");
        reveal_strlit("Content-Type: ");
    }
    assert("\r\nAccess-Control-Allow-Origin: *\r\nContent-Length: "@ == origin + "Content-Length: "@) by {
        reveal_strlit("\r\nAccess-Control-Allow-Origin: *\r\nContent-Length: ");
        reveal_strlit("\r\nAccess-Control-Allow-Origin: *\r\n");
        reveal_strlit("Content-Length: ");
    }
    assert("\r\nConnection: close\r\n\r\n"@ == "\r\n"@ + close + "\r\n\r\n"@) by {
        reveal_strlit("\r\nConnection: close\r\n\r\n");
        reveal_strlit("Connection: close");
        reveal_strlit("\r\n\r\n");
        reveal_strlit("\r\n");
    }
    lemma_head_parts(
        "HTTP/1.1 "@ + text::decimal_of(r.code as nat) + " "@,
        reason_text(r.code) + "\r\n"@,
        "Content-Type: "@ + r.content_type@,
        origin,
        "Content-Length: "@ + len + "\r\n"@,
        close,
        "\r\n\r\n"@,
    );
    assert(head == ("HTTP/1.1 "@ + text::decimal_of(r.code as nat) + " "@) + (reason_text(r.code)
        + "\r\n"@) + ("Content-Type: "@ + r.content_type@) + origin + ("Content-Length: "@ + len
        + "\r\n"@) + close + "\r\n\r\n"@);
    let e = encode_utf8(head);
    assert(response_wire(r).take(e.len() as int) == e);
    assert(response_wire(r).skip(e.len() as int) == r.body@);
}

/// Parts of a head stand in it.
proof fn lemma_head_parts(
    start: Seq<char>,
    reason: Seq<char>,
    kind: Seq<char>,
    origin: Seq<char>,
    length: Seq<char>,
    close: Seq<char>,
    end: Seq<char>,
)
    ensures
        ({
            let head = start + reason + kind + origin + length + close + end;
            &&& text::begins(head, start)
            &&& search::occurs(head, kind)
            &&& search::occurs(head, length)
            &&& text::ends(head, end)
        }),
{
    let head = start + reason + kind + origin + length + close + end;
    assert(head.take(start.len() as int) =~= start);
    assert(head.skip(head.len() - end.len()) =~= end);
    let a = start.len() as int + reason.len();
    assert(head.subrange(a, a + kind.len()) =~= kind);
    assert(search::occurs_at(head, kind, a));
    let b = a + kind.len() + origin.len();
    assert(head.subrange(b, b + length.len()) =~= length);
    assert(search::occurs_at(head, length, b));
}

/// A body is taken up to thirty-two mebibytes; what would be more is refused, and stays
/// refused whatever follows.
pub proof fn large_bodies_are_refused(body: Seq<u8>, len: usize, chunk: Seq<u8>, more: Seq<Seq<u8>>)
    requires
        body.len() + chunk.len() > BODY_LIMIT,
    ensures
        BODY_LIMIT == 32 * 1024 * 1024,
        body_after(BodyState::Waiting(body), len, chunk) is TooLarge,
        body_after_all(BodyState::TooLarge, len, more) is TooLarge,
    decreases more.len(),
{
    if more.len() > 0 {
        large_bodies_are_refused(body, len, chunk, more.drop_last());
    }
}

/// A request line without words asks for the root, and one with a method alone too.
pub proof fn short_request_lines_ask_for_the_root(method: Seq<char>)
    requires
        method.len() > 0,
        forall|i: int| 0 <= i < method.len() ==> !text::is_white(#[trigger] method[i]),
    ensures
        request_of(Seq::empty()) == ("GET"@, "/"@),
        request_of(method) == (method, "/"@),
{
    split::words_end_at_white_space(method, ' ', Seq::empty());
    reveal_strlit("/");
    split::lemma_first_of_is("/"@, '?', 1);
}

/// A request is what its head and body say: method and path as on its first line, the type of
/// its content as in the header for it, and the body as it was received.
pub proof fn requests_are_read_from_their_head(
    q: Request,
    head: Seq<char>,
    body: Seq<u8>,
    first: Seq<char>,
    before: Seq<Seq<char>>,
    name: Seq<char>,
    value: Seq<char>,
    after: Seq<Seq<char>>,
)
    requires
        q.is(encode_utf8(head), body),
        split::lines_of(head) == seq![first] + before + seq![name + seq![':'] + value] + after,
        forall|i: int| 0 <= i < name.len() ==> #[trigger] name[i] != ':',
        text::lowered(text::trimmed(name)) == "content-type"@,
        forall|i: int|
            0 <= i < (seq![first] + before).len() ==> match split::cut(
                #[trigger] (seq![first] + before)[i],
                ':',
            ) {
                Some(kv) => text::lowered(text::trimmed(kv.0)) != "content-type"@,
                None => true,
            },
    ensures
        (q.method@, q.path@) == request_of(first),
        q.content_type@ == text::trimmed(value),
        q.body@ == body,
{
    bytes::lemma_text_of_encoded(head);
    headers_are_found_by_their_name(seq![first] + before, name, value, after, "content-type"@);
    assert(split::lines_of(head)[0] == first);
}

/// Each status has its words, and what is no success is not called one.
pub proof fn statuses_have_their_words(code: u16)
    ensures
        reason_text(200) == "OK"@,
        reason_text(400) == "Bad Request"@,
        reason_text(404) == "Not Found"@,
        reason_text(413) == "Payload Too Large"@,
        code != 200 ==> reason_text(code) != "OK"@,
{
    reveal_strlit("OK");
    reveal_strlit("No Content");
    reveal_strlit("Bad Request");
    reveal_strlit("Not Found");
    reveal_strlit("Payload Too Large");
    reveal_strlit("Error");
    assert("OK"@.len() == 2 && "No Content"@.len() == 10 && "Bad Request"@.len() == 11);
    assert("Not Found"@.len() == 9 && "Payload Too Large"@.len() == 17 && "Error"@.len() == 5);
}

} // verus!
