//! The embedded HTTP server: how a request is read off a connection, and what
//! it is answered.

use vstd::prelude::*;

use crate::bytes::{copy_range, decode_strict};
use crate::json::{json_quote, parse_json, parsed, quote_json, Json, JsonTree};
use crate::text::{
    ascii_lower, char_lists, chars_of, decimal, decimal_string, decode_lossy, find_char, join, join_strings,
    lines, lines_of, parse_unsigned, split_words, str_eq, string_of, strs, to_ascii_lower,
    trim_bounds, trimmed, unsigned, until, utf8_lossy, words,
};

verus! {

/// Maximum request size the HTTP server will buffer (headers + body).
pub const HTTP_MAX_REQUEST: usize = 262_144;

/// Whether `needle` stands in `haystack` at `at`.
pub open spec fn stands_at(haystack: Seq<u8>, needle: Seq<u8>, at: int) -> bool {
    0 <= at && at + needle.len() <= haystack.len() && haystack.subrange(at, at + needle.len())
        == needle
}

/// Whether `at` is the first place where `needle` stands.
pub open spec fn first_at(haystack: Seq<u8>, needle: Seq<u8>, at: int) -> bool {
    stands_at(haystack, needle, at) && forall|k: int|
        0 <= k < at ==> !#[trigger] stands_at(haystack, needle, k)
}

/// Finds the first occurrence of `needle` in `haystack`.
pub fn find(haystack: &[u8], needle: &Vec<u8>) -> (r: Option<usize>)
    requires
        needle@.len() > 0,
    ensures
        match r {
            Some(at) => first_at(haystack@, needle@, at as int),
            None => forall|k: int| !#[trigger] stands_at(haystack@, needle@, k),
        },
{
    let mut at: usize = 0;
    while at < haystack.len()
        invariant
            needle@.len() > 0,
            at <= haystack@.len(),
            forall|k: int| 0 <= k < at ==> !#[trigger] stands_at(haystack@, needle@, k),
        decreases haystack@.len() - at,
    {
        if crate::bytes::bytes_at(haystack, at, needle) {
            return Some(at);
        }
        at += 1;
    }
    None
}

// ---------------------------------------------------------------------------
// Headers
// ---------------------------------------------------------------------------

/// The length that a header line gives, if it is a `Content-Length`.
pub open spec fn length_header(line: Seq<char>) -> Option<nat> {
    let n = until(line, ':') as int;
    if n < line.len() && ascii_lower(trimmed(line.take(n))) == "content-length"@ {
        match unsigned(trimmed(line.skip(n + 1)), usize::MAX as nat) {
            Some(v) => Some(v),
            None => Some(0),
        }
    } else {
        None
    }
}

/// The length that the header lines behind the first one give; the last
/// `Content-Length` counts.
pub open spec fn content_length(all: Seq<Seq<char>>) -> nat
    decreases all.len(),
{
    if all.len() <= 1 {
        0
    } else {
        match length_header(all.last()) {
            Some(v) => v,
            None => content_length(all.drop_last()),
        }
    }
}

/// The path of a request line, `METHOD /path HTTP/1.1`.
pub open spec fn request_path(all: Seq<Seq<char>>) -> Seq<char> {
    if all.len() > 0 && words(all[0]).len() > 1 {
        words(all[0])[1]
    } else {
        Seq::empty()
    }
}

/// What the head of a request says.
#[verifier::ext_equal]
pub struct HeadView {
    /// Where the body begins.
    pub end: nat,
    /// The path asked for.
    pub path: Seq<char>,
    /// The length of the body.
    pub content_len: nat,
}

/// The head of a request in the first `end` bytes of `buf`.
pub open spec fn head_of(buf: Seq<u8>, end: nat) -> HeadView {
    let all = lines(utf8_lossy(buf.take(end as int)));
    HeadView { end, path: request_path(all), content_len: content_length(all) }
}

/// The head of a request.
#[derive(Debug)]
struct Head {
    end: usize,
    path: String,
    content_len: usize,
}

impl View for Head {
    type V = HeadView;

    closed spec fn view(&self) -> HeadView {
        HeadView { end: self.end as nat, path: self.path@, content_len: self.content_len as nat }
    }
}

fn trimmed_part(v: &Vec<char>, from: usize, to: usize) -> (r: Vec<char>)
    requires
        from <= to <= v@.len(),
    ensures
        r@ == trimmed(v@.subrange(from as int, to as int)),
{
    let part = chars_of(string_of(v, from, to).as_str());
    let (a, b) = trim_bounds(&part);
    chars_of(string_of(&part, a, b).as_str())
}

fn length_of(line: &Vec<char>) -> (r: Option<usize>)
    ensures
        match r {
            Some(v) => length_header(line@) == Some(v as nat),
            None => length_header(line@) is None,
        },
{
    let n = find_char(line, ':', 0);
    assert(line@.skip(0) =~= line@);
    if n == line.len() {
        return None;
    }
    let key = trimmed_part(line, 0, n);
    assert(line@.subrange(0, n as int) =~= line@.take(n as int));
    let lower = to_ascii_lower(&key, 0, key.len());
    assert(key@.subrange(0, key@.len() as int) =~= key@);
    if !str_eq(lower.as_str(), "content-length") {
        return None;
    }
    let value = trimmed_part(line, n + 1, line.len());
    assert(line@.subrange(n + 1, line@.len() as int) =~= line@.skip(n + 1));
    match parse_unsigned(&value, usize::MAX as u64) {
        Some(v) => Some(v as usize),
        None => Some(0),
    }
}

fn parse_head(buf: &Vec<u8>, end: usize) -> (r: Head)
    requires
        end <= buf@.len(),
    ensures
        r@ == head_of(buf@, end as nat),
{
    let bytes = copy_range(buf.as_slice(), 0, end);
    assert(bytes@ =~= buf@.take(end as int));
    let text = chars_of(decode_lossy(bytes.as_slice()).as_str());
    let all = lines_of(&text);
    let ghost view = char_lists(all@);
    let path = if all.len() > 0 {
        assert(view[0] == all@[0]@);
        let parts = split_words(&all[0]);
        if parts.len() > 1 {
            assert(words(all@[0]@)[1] == parts@[1]@);
            let path = string_of(&parts[1], 0, parts[1].len());
            assert(path@ =~= parts@[1]@);
            path
        } else {
            String::new()
        }
    } else {
        String::new()
    };
    assert(path@ =~= request_path(view));
    let mut content_len: usize = 0;
    let mut i: usize = 1;
    while i < all.len()
        invariant
            1 <= i,
            i <= all@.len() || i == 1,
            view == char_lists(all@),
            content_len == content_length(view.take(if i <= view.len() {
                i as int
            } else {
                view.len() as int
            })),
        decreases all@.len() - i,
    {
        assert(view.take(i + 1).drop_last() =~= view.take(i as int));
        assert(view.take(i + 1).last() == all@[i as int]@);
        if let Some(v) = length_of(&all[i]) {
            content_len = v;
        }
        i += 1;
    }
    assert(view.take(view.len() as int) =~= view);
    Head { end, path, content_len }
}

// ---------------------------------------------------------------------------
// Reading a request
// ---------------------------------------------------------------------------

/// What to do next with a connection.
#[derive(Debug, Clone, Copy, PartialEq, Eq, Structural)]
pub enum HttpStep {
    /// Read more of the request.
    Read,
    /// Close it without an answer.
    Drop,
    /// Answer the request.
    Respond,
}

/// The state of a [`HttpRequest`].
#[verifier::ext_equal]
pub struct RequestView {
    /// What has been read.
    pub buf: Seq<u8>,
    /// The head, once it is complete.
    pub head: Option<HeadView>,
}

/// The empty line that ends the head.
pub open spec fn head_mark() -> Seq<u8> {
    seq![13, 10, 13, 10]
}

/// Whether the body is complete.
pub open spec fn is_complete(buf: Seq<u8>, head: HeadView) -> bool {
    buf.len() >= head.end + head.content_len
}

/// What more bytes do. A request of more than [`HTTP_MAX_REQUEST`] bytes is
/// dropped, unless the bytes complete its head.
pub open spec fn fed(v: RequestView, chunk: Seq<u8>, r: RequestView, step: HttpStep) -> bool {
    &&& r.buf == v.buf + chunk
    &&& match v.head {
        None => if exists|at: int| #[trigger] stands_at(r.buf, head_mark(), at) {
            exists|at: int| #[trigger]
                first_at(r.buf, head_mark(), at) && r.head == Some(head_of(r.buf, (at + 4) as nat))
                    && step == if is_complete(r.buf, r.head->0) {
                    HttpStep::Respond
                } else {
                    HttpStep::Read
                }
        } else {
            r.head is None && step == if r.buf.len() > HTTP_MAX_REQUEST {
                HttpStep::Drop
            } else {
                HttpStep::Read
            }
        },
        Some(head) => r.head == v.head && step == if r.buf.len() > HTTP_MAX_REQUEST {
            HttpStep::Drop
        } else if is_complete(r.buf, head) {
            HttpStep::Respond
        } else {
            HttpStep::Read
        },
    }
}

/// The body of a request whose head is complete: as much of it as came.
pub open spec fn body_of(v: RequestView) -> Seq<u8> {
    match v.head {
        Some(head) => {
            let end = head.end + head.content_len;
            v.buf.subrange(
                head.end as int,
                if end < v.buf.len() {
                    end as int
                } else {
                    v.buf.len() as int
                },
            )
        },
        None => Seq::empty(),
    }
}

/// The path of a request whose head is complete.
pub open spec fn path_of(v: RequestView) -> Seq<char> {
    match v.head {
        Some(head) => head.path,
        None => Seq::empty(),
    }
}

/// One HTTP/1.1 request while it is read.
#[derive(Debug)]
pub struct HttpRequest {
    buf: Vec<u8>,
    head: Option<Head>,
}

impl View for HttpRequest {
    type V = RequestView;

    closed spec fn view(&self) -> RequestView {
        RequestView {
            buf: self.buf@,
            head: match self.head {
                Some(h) => Some(h@),
                None => None,
            },
        }
    }
}

impl HttpRequest {
    /// The head lies within what has been read.
    pub open spec fn wf(&self) -> bool {
        self@.head matches Some(h) ==> h.end <= self@.buf.len()
    }

    /// A request of which nothing has been read.
    pub fn new() -> (r: Self)
        ensures
            r.wf(),
            r@ == (RequestView { buf: Seq::empty(), head: None }),
    {
        let r = HttpRequest { buf: Vec::new(), head: None };
        assert(r@.buf =~= Seq::empty());
        r
    }

    /// Takes bytes that were read.
    pub fn feed(&mut self, chunk: &[u8]) -> (r: HttpStep)
        requires
            old(self).wf(),
        ensures
            final(self).wf(),
            fed(old(self)@, chunk@, final(self)@, r),
    {
        let mut more = copy_range(chunk, 0, chunk.len());
        assert(more@ =~= chunk@);
        self.buf.append(&mut more);
        let known = self.head.is_some();
        if !known {
            let mark: Vec<u8> = vec![13, 10, 13, 10];
            assert(mark@ =~= head_mark());
            match find(self.buf.as_slice(), &mark) {
                Some(at) => {
                    assert(stands_at(self.buf@, head_mark(), at as int));
                    assert(head_mark().len() == 4);
                    assert(at + 4 <= self.buf.len());
                    let head = parse_head(&self.buf, at + 4);
                    let complete = self.buf.len() - head.end >= head.content_len;
                    self.head = Some(head);
                    assert(first_at(self@.buf, head_mark(), at as int));
                    if complete {
                        HttpStep::Respond
                    } else {
                        HttpStep::Read
                    }
                },
                None => {
                    if self.buf.len() > HTTP_MAX_REQUEST {
                        HttpStep::Drop
                    } else {
                        HttpStep::Read
                    }
                },
            }
        } else if self.buf.len() > HTTP_MAX_REQUEST {
            HttpStep::Drop
        } else {
            match &self.head {
                Some(head) => {
                    if self.buf.len() - head.end >= head.content_len {
                        HttpStep::Respond
                    } else {
                        HttpStep::Read
                    }
                },
                None => HttpStep::Read,
            }
        }
    }

    /// The connection was closed, or reading failed: a request with a head is
    /// answered as far as it came.
    pub fn close(&self) -> (r: HttpStep)
        ensures
            r == (if self@.head is Some {
                HttpStep::Respond
            } else {
                HttpStep::Drop
            }),
    {
        if self.head.is_some() {
            HttpStep::Respond
        } else {
            HttpStep::Drop
        }
    }

    /// The path asked for.
    pub fn path(&self) -> (r: String)
        ensures
            r@ == path_of(self@),
    {
        match &self.head {
            Some(head) => head.path.clone(),
            None => {
                let r = String::new();
                assert(r@ =~= Seq::empty());
                r
            },
        }
    }

    /// The body, as much of it as came.
    pub fn body(&self) -> (r: Vec<u8>)
        requires
            self.wf(),
        ensures
            r@ == body_of(self@),
    {
        match &self.head {
            Some(head) => {
                let to: usize = if self.buf.len() - head.end > head.content_len {
                    head.end + head.content_len
                } else {
                    self.buf.len()
                };
                copy_range(self.buf.as_slice(), head.end, to)
            },
            None => {
                let r: Vec<u8> = Vec::new();
                assert(r@ =~= Seq::empty());
                r
            },
        }
    }
}

// ---------------------------------------------------------------------------
// Answers
// ---------------------------------------------------------------------------

/// An answer.
#[derive(Debug)]
pub struct HttpAnswer {
    /// The status, such as `200 OK`.
    pub status: &'static str,
    /// The type of the body.
    pub content_type: &'static str,
    /// The body.
    pub body: String,
}

/// The summary in a forwarded context, empty where there is none.
pub open spec fn summary_in(v: Option<JsonTree>) -> Seq<char> {
    match v {
        Some(tree) => match tree.member_text("summary"@) {
            Some(s) => s,
            None => Seq::empty(),
        },
        None => Seq::empty(),
    }
}

/// A byte string as JSON: `None` where it is no UTF-8 or no JSON.
pub open spec fn json_bytes(body: Seq<u8>) -> Option<JsonTree> {
    if vstd::utf8::valid_utf8(body) {
        match parsed(vstd::utf8::decode_utf8(body)) {
            Ok(tree) => Some(tree),
            Err(_) => None,
        }
    } else {
        None
    }
}

/// Names as a JSON array.
pub open spec fn json_names(names: Seq<Seq<char>>) -> Seq<char> {
    "["@ + join(names.map_values(|n: Seq<char>| json_quote(n)), ","@) + "]"@
}

/// Status, type and body of what a request is answered.
pub open spec fn answered(
    path: Seq<char>,
    body: Option<JsonTree>,
    name: Seq<char>,
    names: Seq<Seq<char>>,
) -> (Seq<char>, Seq<char>, Seq<char>) {
    if path == "/forward"@ {
        ("200 OK"@, "text/plain"@, "[forwarded to "@ + name + "] "@ + summary_in(body))
    } else if path == "/peers"@ {
        ("200 OK"@, "application/json"@, json_names(names))
    } else {
        ("404 Not Found"@, "text/plain"@, "not found"@)
    }
}

/// The value of an optional parse result.
pub open spec fn opt_json(v: Option<Json>) -> Option<JsonTree> {
    match v {
        Some(json) => Some(json@),
        None => None,
    }
}

fn names_json(names: &Vec<String>) -> (r: String)
    ensures
        r@ == json_names(strs(names@)),
{
    let ghost all = strs(names@).map_values(|n: Seq<char>| json_quote(n));
    let mut quoted: Vec<String> = Vec::new();
    let mut i: usize = 0;
    assert(strs(quoted@) =~= all.take(0));
    while i < names.len()
        invariant
            all == strs(names@).map_values(|n: Seq<char>| json_quote(n)),
            i <= names@.len(),
            strs(quoted@) == all.take(i as int),
        decreases names@.len() - i,
    {
        let ghost before = quoted@;
        let q = quote_json(names[i].as_str());
        quoted.push(q);
        assert(strs(quoted@) =~= strs(before).push(q@));
        assert(all.take(i + 1) =~= all.take(i as int).push(all[i as int]));
        i += 1;
    }
    assert(all.take(all.len() as int) =~= all);
    "[".to_owned().concat(join_strings(&quoted, ",").as_str()).concat("]")
}

/// What a request is answered, from its parsed body. Recognizes `/forward`
/// (an acknowledgment carrying this node's name and the forwarded summary, so
/// the forwarding node can relay it back to the user) and `/peers` (the known
/// peer names as a JSON array). Anything else gets a 404.
pub fn answer_parsed(path: &str, body: &Option<Json>, name: &str, names: &Vec<String>) -> (r:
    HttpAnswer)
    ensures
        (r.status@, r.content_type@, r.body@) == answered(
            path@,
            opt_json(*body),
            name@,
            strs(names@),
        ),
{
    if str_eq(path, "/forward") {
        let summary = match body {
            Some(json) => {
                proof {
                    reveal_strlit("");
                    assert(""@ =~= Seq::<char>::empty());
                }
                json.get_text_or("summary", "")
            },
            None => String::new(),
        };
        assert(summary@ =~= summary_in(opt_json(*body)));
        HttpAnswer {
            status: "200 OK",
            content_type: "text/plain",
            body: "[forwarded to ".to_owned().concat(name).concat("] ").concat(summary.as_str()),
        }
    } else if str_eq(path, "/peers") {
        HttpAnswer {
            status: "200 OK",
            content_type: "application/json",
            body: names_json(names),
        }
    } else {
        HttpAnswer {
            status: "404 Not Found",
            content_type: "text/plain",
            body: "not found".to_owned(),
        }
    }
}

/// What a request that has been read is answered by the node `name` that
/// knows the peers `names`.
pub fn handle_http(request: &HttpRequest, name: &str, names: &Vec<String>) -> (r: HttpAnswer)
    requires
        request.wf(),
    ensures
        (r.status@, r.content_type@, r.body@) == answered(
            path_of(request@),
            json_bytes(body_of(request@)),
            name@,
            strs(names@),
        ),
{
    let body = request.body();
    let json = match decode_strict(body.as_slice()).ok() {
        Some(text) => match parse_json(text.as_str()) {
            Ok(json) => Some(json),
            Err(_) => None,
        },
        None => None,
    };
    answer_parsed(request.path().as_str(), &json, name, names)
}

/// An answer as it is sent: the head, with the length of the body in bytes,
/// and the body.
pub open spec fn response(status: Seq<char>, content_type: Seq<char>, body: Seq<char>) -> Seq<char> {
    "HTTP/1.1 "@ + status + "\r\ncontent-type: "@ + content_type + "\r\ncontent-length: "@
        + decimal(vstd::utf8::encode_utf8(body).len()) + "\r\nconnection: close\r\n\r\n"@ + body
}

impl HttpAnswer {
    /// The answer as it is sent.
    pub fn text(&self) -> (r: String)
        ensures
            r@ == response(self.status@, self.content_type@, self.body@),
    {
        let length: usize = self.body.as_str().as_bytes().len();
        "HTTP/1.1 ".to_owned().concat(self.status).concat("\r\ncontent-type: ").concat(
            self.content_type,
        ).concat("\r\ncontent-length: ").concat(decimal_string(length as u64).as_str()).concat(
            "\r\nconnection: close\r\n\r\n",
        ).concat(self.body.as_str())
    }
}

/// A request is never asked for more once it is over the limit.
pub proof fn law_requests_are_bounded(
    v: RequestView,
    chunk: Seq<u8>,
    r: RequestView,
    step: HttpStep,
)
    requires
        fed(v, chunk, r, step),
        step == HttpStep::Read,
        v.head is Some,
    ensures
        r.buf.len() <= HTTP_MAX_REQUEST,
{
}

proof fn lemma_one_first(haystack: Seq<u8>, needle: Seq<u8>, a: int, b: int)
    requires
        first_at(haystack, needle, a),
        first_at(haystack, needle, b),
    ensures
        a == b,
{
    if a < b {
        assert(stands_at(haystack, needle, a));
    } else if b < a {
        assert(stands_at(haystack, needle, b));
    }
}

proof fn lemma_first_stays(haystack: Seq<u8>, needle: Seq<u8>, at: int, more: Seq<u8>)
    requires
        first_at(haystack, needle, at),
    ensures
        first_at(haystack + more, needle, at),
{
    let all = haystack + more;
    assert(all.subrange(at, at + needle.len()) =~= haystack.subrange(at, at + needle.len()));
    assert forall|k: int| 0 <= k < at implies !#[trigger] stands_at(all, needle, k) by {
        assert(all.subrange(k, k + needle.len()) =~= haystack.subrange(k, k + needle.len()));
        assert(!stands_at(haystack, needle, k));
    }
}

/// How the bytes of a request are cut does not matter: one that is still read
/// after `a` comes, with `b`, to what it comes to with both at once.
#[verifier::rlimit(40)]
pub proof fn law_requests_ignore_chunking(
    v: RequestView,
    a: Seq<u8>,
    b: Seq<u8>,
    between: RequestView,
    r: RequestView,
    step: HttpStep,
    at_once: RequestView,
    other: HttpStep,
)
    requires
        v.buf.len() + a.len() + b.len() <= 262_144,
        fed(v, a, between, HttpStep::Read),
        fed(between, b, r, step),
        fed(v, a + b, at_once, other),
    ensures
        r == at_once,
        step == other,
{
    assert(v.buf + a + b =~= v.buf + (a + b));
    if v.head is None {
        if exists|at: int| #[trigger] stands_at(between.buf, head_mark(), at) {
            let at = choose|at: int| #[trigger]
                first_at(between.buf, head_mark(), at) && between.head == Some(
                    head_of(between.buf, (at + 4) as nat),
                );
            assert(first_at(between.buf, head_mark(), at));
            lemma_first_stays(between.buf, head_mark(), at, b);
            assert(stands_at(at_once.buf, head_mark(), at));
            let two = choose|two: int| #[trigger]
                first_at(at_once.buf, head_mark(), two) && at_once.head == Some(
                    head_of(at_once.buf, (two + 4) as nat),
                ) && other == if is_complete(at_once.buf, at_once.head->0) {
                    HttpStep::Respond
                } else {
                    HttpStep::Read
                };
            lemma_one_first(at_once.buf, head_mark(), at, two);
            assert(at_once.buf.take(at + 4) =~= between.buf.take(at + 4));
        } else if exists|at: int| #[trigger] stands_at(r.buf, head_mark(), at) {
            let one = choose|one: int| #[trigger]
                first_at(r.buf, head_mark(), one) && r.head == Some(
                    head_of(r.buf, (one + 4) as nat),
                ) && step == if is_complete(r.buf, r.head->0) {
                    HttpStep::Respond
                } else {
                    HttpStep::Read
                };
            let two = choose|two: int| #[trigger]
                first_at(at_once.buf, head_mark(), two) && at_once.head == Some(
                    head_of(at_once.buf, (two + 4) as nat),
                ) && other == if is_complete(at_once.buf, at_once.head->0) {
                    HttpStep::Respond
                } else {
                    HttpStep::Read
                };
            lemma_one_first(r.buf, head_mark(), one, two);
        }
    }
}

/// Whether a text is a word: not empty, and without white space.
pub open spec fn is_word(s: Seq<char>) -> bool {
    s.len() > 0 && forall|i: int| 0 <= i < s.len() ==> !crate::text::is_white(#[trigger] s[i])
}

#[verifier::rlimit(40)]
proof fn lemma_request_line(method: Seq<char>, path: Seq<char>, version: Seq<char>)
    requires
        is_word(method),
        is_word(path),
        is_word(version),
    ensures
        words(method + " "@ + path + " "@ + version) == seq![method, path, version],
        !(method + " "@ + path + " "@ + version).contains('\n'),
{
    reveal_strlit(" ");
    let none = Seq::<char>::empty();
    assert(version + none =~= version);
    super::lemma_first_word(version, none);
    assert(words(none) =~= Seq::empty());
    super::lemma_space_then(version);
    super::lemma_first_word(path, " "@ + version);
    super::lemma_space_then(path + (" "@ + version));
    super::lemma_first_word(method, " "@ + (path + (" "@ + version)));
    let line = method + " "@ + path + " "@ + version;
    assert(line =~= method + (" "@ + (path + (" "@ + version))));
    assert(words(line) =~= seq![method, path, version]);
    assert(crate::text::is_white('\n'));
    if line.contains('\n') {
        let i = choose|i: int| 0 <= i < line.len() && line[i] == '\n';
        let m = method.len() as int;
        let p = m + 1 + path.len();
        if i < m {
            assert(method[i] == '\n');
        } else if m < i < p {
            assert(path[i - m - 1] == '\n');
        } else if i > p {
            assert(version[i - p - 1] == '\n');
        }
        assert(false);
    }
}

proof fn lemma_lower_char(c: char)
    ensures
        c == ':' || c == '\n' || crate::text::is_white(c) ==> crate::text::ascii_lower_char(c) == c,
{
}

#[verifier::rlimit(40)]
proof fn lemma_length_line(name: Seq<char>, n: nat)
    requires
        ascii_lower(name) == "content-length"@,
        n <= usize::MAX,
    ensures
        length_header(name + ": "@ + decimal(n)) == Some(n),
        !(name + ": "@ + decimal(n)).contains('\n'),
        (name + ": "@ + decimal(n)).last() != '\r',
{
    reveal_strlit("content-length");
    reveal_strlit(": ");
    let want = "content-length"@;
    let line = name + ": "@ + decimal(n);
    crate::text::lemma_decimal_digits(n);
    assert(name.len() == 14) by {
        assert(ascii_lower(name).len() == name.len());
    }
    assert forall|i: int| 0 <= i < name.len() implies name[i] != ':' && name[i] != '\n'
        && !crate::text::is_white(#[trigger] name[i]) by {
        lemma_lower_char(name[i]);
        assert(ascii_lower(name)[i] == crate::text::ascii_lower_char(name[i]));
        assert(ascii_lower(name)[i] == want[i]);
    }
    assert forall|i: int| 0 <= i < decimal(n).len() implies '0' <= #[trigger] decimal(n)[i]
        <= '9' by {
        assert(crate::text::is_digit_char(decimal(n)[i]));
    }
    crate::text::lemma_until(line, ':');
    let at = until(line, ':') as int;
    assert(line[14] == ':');
    assert(at == 14) by {
        if at < 14 {
            assert(line[at] == name[at]);
        }
    }
    assert(line.take(14) =~= name);
    assert(line.skip(15) =~= seq![' '] + decimal(n));
    let none = Seq::<char>::empty();
    crate::text::law_trimming_finds_the_text(none, name, none);
    assert(none + name + none =~= name);
    assert(!crate::text::is_white(decimal(n)[0]));
    assert(!crate::text::is_white(decimal(n).last()));
    assert(crate::text::is_white(' '));
    crate::text::law_trimming_finds_the_text(seq![' '], decimal(n), none);
    assert(seq![' '] + decimal(n) + none =~= seq![' '] + decimal(n));
    crate::text::law_decimal_round_trip(n, usize::MAX as nat);
    if line.contains('\n') {
        let i = choose|i: int| 0 <= i < line.len() && line[i] == '\n';
        if i < 14 {
            assert(name[i] == '\n');
        } else if i >= 16 {
            assert(decimal(n)[i - 16] == '\n');
        }
        assert(false);
    }
    assert(line.last() == decimal(n).last());
}

#[verifier::rlimit(40)]
proof fn lemma_head_lines(line: Seq<char>, header: Seq<char>)
    requires
        !line.contains('\n'),
        !header.contains('\n'),
    ensures
        lines(line + "\r\n"@ + header + "\r\n\r\n"@) == seq![line, header, Seq::empty()],
{
    reveal_strlit("\r\n");
    reveal_strlit("\r\n\r\n");
    let none = Seq::<char>::empty();
    let cr = seq!['\r'];
    assert(!cr.contains('\n'));
    crate::text::law_lines_end_at_newlines(none, none);
    crate::text::law_lines_end_at_newlines(cr, none);
    assert(cr.drop_last() =~= none);
    let third = cr.push('\n') + none;
    let b = header.push('\r');
    assert(!b.contains('\n')) by {
        if b.contains('\n') {
            let i = choose|i: int| 0 <= i < b.len() && b[i] == '\n';
            assert(header[i] == '\n');
        }
    }
    crate::text::law_lines_end_at_newlines(b, third);
    assert(b.drop_last() =~= header);
    let second = b.push('\n') + third;
    let a = line.push('\r');
    assert(!a.contains('\n')) by {
        if a.contains('\n') {
            let i = choose|i: int| 0 <= i < a.len() && a[i] == '\n';
            assert(line[i] == '\n');
        }
    }
    crate::text::law_lines_end_at_newlines(a, second);
    assert(a.drop_last() =~= line);
    let all = line + "\r\n"@ + header + "\r\n\r\n"@;
    assert(all =~= a.push('\n') + second);
    assert(lines(all) =~= seq![line, header, Seq::empty()]);
}

proof fn lemma_length_said(line: Seq<char>, header: Seq<char>, n: nat)
    requires
        length_header(header) == Some(n),
    ensures
        content_length(seq![line, header, Seq::empty()]) == n,
{
    let all = seq![line, header, Seq::<char>::empty()];
    let two = seq![line, header];
    assert(all.last() == Seq::<char>::empty());
    assert(length_header(all.last()) is None);
    assert(all.drop_last() =~= two);
    assert(two.last() == header);
    assert(content_length(two) == n);
}

/// A request whose head gives the length of its body, under a header in any
/// letter case, is answered once the body is there: its path is the second
/// word of its first line, and its body is what stands behind the empty line.
#[verifier::rlimit(40)]
pub proof fn law_bodies_are_read_whole(
    method: Seq<char>,
    path: Seq<char>,
    version: Seq<char>,
    name: Seq<char>,
    head: Seq<u8>,
    body: Seq<u8>,
    sent: Seq<u8>,
    r: RequestView,
    step: HttpStep,
)
    requires
        sent == head + seq![13u8, 10, 13, 10] + body,
        is_word(method),
        is_word(path),
        is_word(version),
        ascii_lower(name) == "content-length"@,
        body.len() <= usize::MAX,
        utf8_lossy(head + seq![13u8, 10, 13, 10]) == method + " "@ + path + " "@ + version + "\r\n"@
            + (name + ": "@ + decimal(body.len())) + "\r\n\r\n"@,
        forall|k: int|
            0 <= k < head.len() ==> !(#[trigger] sent[k] == 13 && sent[k + 1] == 10 && sent[k + 2]
                == 13 && sent[k + 3] == 10),
        fed(RequestView { buf: Seq::empty(), head: None }, sent, r, step),
    ensures
        step == HttpStep::Respond,
        path_of(r) == path,
        body_of(r) == body,
{
    let mark = seq![13u8, 10, 13, 10];
    assert(mark =~= head_mark());
    let buf = sent;
    assert(Seq::<u8>::empty() + buf =~= buf);
    let at = head.len() as int;
    assert forall|k: int| 0 <= k < at implies !#[trigger] stands_at(buf, head_mark(), k) by {
        if stands_at(buf, head_mark(), k) {
            let part = buf.subrange(k, k + 4);
            assert(part[0] == buf[k] && part[1] == buf[k + 1] && part[2] == buf[k + 2] && part[3]
                == buf[k + 3]);
        }
    }
    assert(buf.subrange(at, at + 4) =~= mark);
    assert(stands_at(buf, head_mark(), at));
    assert(first_at(buf, head_mark(), at));
    let two = choose|two: int| #[trigger]
        first_at(r.buf, head_mark(), two) && r.head == Some(head_of(r.buf, (two + 4) as nat))
            && step == if is_complete(r.buf, r.head->0) {
            HttpStep::Respond
        } else {
            HttpStep::Read
        };
    lemma_one_first(buf, head_mark(), at, two);
    assert(buf.take(at + 4) =~= head + mark);
    let line = method + " "@ + path + " "@ + version;
    let header = name + ": "@ + decimal(body.len());
    lemma_request_line(method, path, version);
    lemma_length_line(name, body.len());
    lemma_head_lines(line, header);
    lemma_length_said(line, header, body.len());
    assert(body_of(r) =~= body);
}

#[verifier::rlimit(30)]
proof fn lemma_head_line(line: Seq<char>, rest: Seq<char>)
    requires
        !line.contains('\n'),
    ensures
        lines(line + "\r\n"@ + rest) == seq![line] + lines(rest),
{
    reveal_strlit("\r\n");
    let a = line.push('\r');
    assert(!a.contains('\n')) by {
        if a.contains('\n') {
            let i = choose|i: int| 0 <= i < a.len() && a[i] == '\n';
            assert(line[i] == '\n');
        }
    }
    crate::text::law_lines_end_at_newlines(a, rest);
    assert(a.drop_last() =~= line);
    assert(line + "\r\n"@ + rest =~= a.push('\n') + rest);
}

proof fn lemma_no_newline(a: Seq<char>, b: Seq<char>)
    requires
        !a.contains('\n'),
        !b.contains('\n'),
    ensures
        !(a + b).contains('\n'),
{
    let s = a + b;
    if s.contains('\n') {
        let i = choose|i: int| 0 <= i < s.len() && s[i] == '\n';
        if i < a.len() {
            assert(a[i] == '\n');
        } else {
            assert(b[i - a.len()] == '\n');
        }
    }
}

proof fn lemma_short_name(line: Seq<char>, at: int)
    requires
        0 <= at < 14,
        at < line.len(),
        line[at] == ':',
    ensures
        length_header(line) is None,
{
    reveal_strlit("content-length");
    crate::text::lemma_until(line, ':');
    let n = until(line, ':') as int;
    if n > at {
        assert(line[at] != ':');
    }
    let (from, to) = crate::text::law_trimming_takes_white_space(line.take(n));
    assert(trimmed(line.take(n)).len() < 14);
    assert(ascii_lower(trimmed(line.take(n))).len() == trimmed(line.take(n)).len());
    assert("content-length"@.len() == 14);
}

#[verifier::rlimit(30)]
proof fn lemma_connection_line()
    ensures
        length_header("connection: close"@) is None,
        !"connection: close"@.contains('\n'),
{
    reveal_strlit("connection: close");
    let line = "connection: close"@;
    lemma_short_name(line, 10);
    assert forall|i: int| 0 <= i < line.len() implies line[i] != '\n' by {}
}

/// What stands in front of the body of an answer.
spec fn response_head(status: Seq<char>, content_type: Seq<char>, length: nat) -> Seq<char> {
    "HTTP/1.1 "@ + status + "\r\n"@ + ("content-type: "@ + content_type + "\r\n"@ + (
    "content-length: "@ + decimal(length) + "\r\n"@ + ("connection: close"@ + "\r\n"@ + (
    Seq::<char>::empty() + "\r\n"@ + Seq::<char>::empty()))))
}

#[verifier::rlimit(40)]
proof fn lemma_response_head(status: Seq<char>, content_type: Seq<char>, length: nat)
    requires
        !status.contains('\n'),
        !content_type.contains('\n'),
        length <= usize::MAX,
    ensures
        content_length(lines(response_head(status, content_type, length))) == length,
{
    reveal_strlit("HTTP/1.1 ");
    reveal_strlit("content-type: ");
    reveal_strlit("content-length: ");
    reveal_strlit("content-length");
    reveal_strlit(": ");
    let none = Seq::<char>::empty();
    crate::text::law_lines_end_at_newlines(none, none);
    lemma_head_line(none, none);
    let e5 = none + "\r\n"@ + none;
    assert(lines(e5) =~= seq![none]);
    lemma_connection_line();
    lemma_head_line("connection: close"@, e5);
    let e4 = "connection: close"@ + "\r\n"@ + e5;
    assert(lines(e4) =~= seq!["connection: close"@, none]);
    let name = "content-length"@;
    assert(ascii_lower(name) =~= name);
    lemma_length_line(name, length);
    let third = "content-length: "@ + decimal(length);
    assert(third =~= name + ": "@ + decimal(length));
    lemma_head_line(third, e4);
    let e3 = third + "\r\n"@ + e4;
    assert(lines(e3) =~= seq![third, "connection: close"@, none]);
    lemma_no_newline("content-type: "@, content_type);
    let second = "content-type: "@ + content_type;
    lemma_head_line(second, e3);
    let e2 = second + "\r\n"@ + e3;
    assert(lines(e2) =~= seq![second, third, "connection: close"@, none]);
    lemma_no_newline("HTTP/1.1 "@, status);
    let first = "HTTP/1.1 "@ + status;
    lemma_head_line(first, e2);
    let all = seq![first, second, third, "connection: close"@, none];
    assert(lines(first + "\r\n"@ + e2) =~= all);
    assert(response_head(status, content_type, length) == first + "\r\n"@ + e2);
    assert(all.last() == none);
    assert(length_header(none) is None);
    let four = all.drop_last();
    assert(four.last() == "connection: close"@);
    let three = four.drop_last();
    assert(three.last() == third);
    assert(content_length(three) == length);
    assert(content_length(four) == content_length(three));
    assert(content_length(all) == content_length(four));
}

/// An answer can be read back: its body stands behind the empty line that ends
/// its head, and its head gives the length of the body in bytes.
#[verifier::rlimit(40)]
pub proof fn law_answers_give_their_length(
    status: Seq<char>,
    content_type: Seq<char>,
    body: Seq<char>,
) -> (head: Seq<char>)
    requires
        !status.contains('\n'),
        !content_type.contains('\n'),
        vstd::utf8::encode_utf8(body).len() <= usize::MAX,
    ensures
        response(status, content_type, body) == head + body,
        head.len() >= 4 && head.skip(head.len() - 4) == seq!['\r', '\n', '\r', '\n'],
        content_length(lines(head)) == vstd::utf8::encode_utf8(body).len(),
{
    let length = vstd::utf8::encode_utf8(body).len();
    lemma_response_head(status, content_type, length);
    reveal_strlit("\r\n");
    reveal_strlit("content-type: ");
    reveal_strlit("content-length: ");
    reveal_strlit("connection: close");
    reveal_strlit("\r\ncontent-type: ");
    reveal_strlit("\r\ncontent-length: ");
    reveal_strlit("\r\nconnection: close\r\n\r\n");
    let head = response_head(status, content_type, length);
    let d = decimal(length);
    let end = "\r\n"@ + ("connection: close"@ + "\r\n"@ + (Seq::<char>::empty() + "\r\n"@
        + Seq::<char>::empty()));
    assert(end =~= "\r\nconnection: close\r\n\r\n"@);
    assert("\r\n"@ + "content-type: "@ =~= "\r\ncontent-type: "@);
    assert("\r\n"@ + "content-length: "@ =~= "\r\ncontent-length: "@);
    let a = "HTTP/1.1 "@ + status;
    lemma_regroup(a, "\r\n"@, "content-type: "@, content_type, "content-length: "@, d, end);
    assert("content-length: "@ + d + "\r\n"@ + ("connection: close"@ + "\r\n"@ + (
    Seq::<char>::empty() + "\r\n"@ + Seq::<char>::empty())) =~= "content-length: "@ + d + end);
    assert(head.skip(head.len() - 4) =~= end.skip(end.len() - 4));
    assert(end.skip(end.len() - 4) =~= seq!['\r', '\n', '\r', '\n']);
    head
}

proof fn lemma_regroup(
    a: Seq<char>,
    nl: Seq<char>,
    b: Seq<char>,
    c: Seq<char>,
    d: Seq<char>,
    e: Seq<char>,
    f: Seq<char>,
)
    ensures
        a + nl + (b + c + nl + (d + e + f)) == a + (nl + b) + c + (nl + d) + e + f,
{
    assert(a + nl + (b + c + nl + (d + e + f)) =~= a + (nl + b) + c + (nl + d) + e + f);
}

/// A forwarded call is acknowledged under this node's name, with the summary
/// that came with it behind that, character for character; a path that is
/// neither of the two is not found.
#[verifier::rlimit(30)]
pub proof fn law_forwards_are_acknowledged(
    path: Seq<char>,
    body: Option<JsonTree>,
    summary: Seq<char>,
    name: Seq<char>,
    names: Seq<Seq<char>>,
)
    ensures
        body is Some && (body->0).member_text("summary"@) == Some(summary) ==> ({
            let (status, _, text) = answered("/forward"@, body, name, names);
            &&& status == "200 OK"@
            &&& text.len() >= summary.len()
            &&& text.skip(text.len() - summary.len()) == summary
            &&& crate::text::contains(text, name)
        }),
        path != "/forward"@ && path != "/peers"@ ==> answered(path, body, name, names).0
            == "404 Not Found"@,
{
    if body is Some && (body->0).member_text("summary"@) == Some(summary) {
        reveal_strlit("[forwarded to ");
        let text = answered("/forward"@, body, name, names).2;
        assert(text.skip(text.len() - summary.len()) =~= summary);
        let at = "[forwarded to "@.len() as int;
        assert(text.subrange(at, at + name.len()) =~= name);
        assert(crate::text::matches_at(text, name, at));
    }
}

/// The rest of an array of names behind one of them.
spec fn names_behind(names: Seq<Seq<char>>) -> Seq<char>
    decreases names.len(),
{
    if names.len() == 0 {
        seq![']']
    } else {
        seq![','] + (json_quote(names[0]) + names_behind(names.drop_first()))
    }
}

#[verifier::rlimit(30)]
proof fn lemma_names_from_the_front(names: Seq<Seq<char>>, done: Seq<Seq<char>>)
    requires
        done.len() > 0,
    ensures
        join((done + names).map_values(|n: Seq<char>| json_quote(n)), ","@) + "]"@ == join(
            done.map_values(|n: Seq<char>| json_quote(n)),
            ","@,
        ) + names_behind(names),
    decreases names.len(),
{
    reveal_strlit(",");
    reveal_strlit("]");
    let quoted = done.map_values(|n: Seq<char>| json_quote(n));
    if names.len() == 0 {
        assert(done + names =~= done);
        assert("]"@ =~= seq![']']);
    } else {
        let rest = names.drop_first();
        let more = done.push(names[0]);
        lemma_names_from_the_front(rest, more);
        assert(done + names =~= more + rest);
        let longer = more.map_values(|n: Seq<char>| json_quote(n));
        assert(longer.drop_last() =~= quoted);
        assert(longer.last() == json_quote(names[0]));
        assert(join(longer, ","@) == join(quoted, ","@) + ","@ + json_quote(names[0]));
        assert(","@ =~= seq![',']);
        assert(join(quoted, ","@) + ","@ + json_quote(names[0]) + names_behind(rest) =~= join(
            quoted,
            ","@,
        ) + names_behind(names));
    }
}

proof fn lemma_same_names_behind(a: Seq<Seq<char>>, b: Seq<Seq<char>>)
    requires
        names_behind(a) == names_behind(b),
    ensures
        a == b,
    decreases a.len(),
{
    let left = names_behind(a);
    let right = names_behind(b);
    if a.len() == 0 || b.len() == 0 {
        assert(left[0] == if a.len() == 0 {
            ']'
        } else {
            ','
        });
        assert(right[0] == if b.len() == 0 {
            ']'
        } else {
            ','
        });
        assert(a =~= b);
    } else {
        let x = names_behind(a.drop_first());
        let y = names_behind(b.drop_first());
        assert(left.skip(1) =~= json_quote(a[0]) + x);
        assert(right.skip(1) =~= json_quote(b[0]) + y);
        crate::json::law_quoted_strings_end_at_their_quote(a[0], x, b[0], y);
        lemma_same_names_behind(a.drop_first(), b.drop_first());
        assert(a =~= seq![a[0]] + a.drop_first());
        assert(b =~= seq![b[0]] + b.drop_first());
    }
}

#[verifier::rlimit(30)]
proof fn lemma_names_shape(names: Seq<Seq<char>>)
    ensures
        names.len() == 0 ==> json_names(names) == seq!['[', ']'],
        names.len() > 0 ==> json_names(names) == seq!['['] + (json_quote(names[0]) + names_behind(
            names.drop_first(),
        )),
{
    reveal_strlit("[");
    reveal_strlit("]");
    let quoted = names.map_values(|n: Seq<char>| json_quote(n));
    assert("["@ =~= seq!['[']);
    if names.len() == 0 {
        assert(json_names(names) =~= seq!['[', ']']);
    } else {
        let one = seq![names[0]];
        lemma_names_from_the_front(names.drop_first(), one);
        assert(one + names.drop_first() =~= names);
        let first = one.map_values(|n: Seq<char>| json_quote(n));
        assert(first.len() == 1);
        assert(join(first, ","@) == json_quote(names[0]));
        assert(json_names(names) =~= "["@ + (join(quoted, ","@) + "]"@));
    }
}

/// The list of peers says them all, in order: two lists are written alike only
/// where they are the same, whatever the names hold.
pub proof fn law_peer_lists_tell_the_names(a: Seq<Seq<char>>, b: Seq<Seq<char>>)
    requires
        json_names(a) == json_names(b),
    ensures
        a == b,
{
    lemma_names_shape(a);
    lemma_names_shape(b);
    let left = json_names(a);
    let right = json_names(b);
    if a.len() > 0 {
        assert(left[1] == '"');
    } else {
        assert(left[1] == ']');
    }
    if b.len() > 0 {
        assert(right[1] == '"');
    } else {
        assert(right[1] == ']');
    }
    if a.len() > 0 && b.len() > 0 {
        let x = names_behind(a.drop_first());
        let y = names_behind(b.drop_first());
        assert(left.skip(1) =~= json_quote(a[0]) + x);
        assert(right.skip(1) =~= json_quote(b[0]) + y);
        crate::json::law_quoted_strings_end_at_their_quote(a[0], x, b[0], y);
        lemma_same_names_behind(a.drop_first(), b.drop_first());
        assert(a =~= seq![a[0]] + a.drop_first());
        assert(b =~= seq![b[0]] + b.drop_first());
    } else {
        assert(a =~= b);
    }
}

} // verus!
