//! JSON values.
//!
//! [`read_json`] opens the outermost level of a JSON text: scalars come out as
//! plain values, the members of an array or an object as JSON texts of their
//! own. [`parse_json`] opens those in turn and builds the whole [`Json`] value.

use serde_json::Value;
use vstd::prelude::*;

use crate::text::str_eq;

verus! {

/// A JSON value.
pub enum Json {
    /// `null`.
    Null,
    /// `true` or `false`.
    Bool(bool),
    /// A number: its value where it is an unsigned 64-bit integer, and its
    /// text.
    Number(Option<u64>, String),
    /// A string, unescaped.
    Text(String),
    /// An array.
    List(Vec<Json>),
    /// An object: the name and the value of each member.
    Table(Vec<(String, Json)>),
}

/// The outermost level of a JSON value.
pub enum JsonNode {
    /// `null`.
    Null,
    /// `true` or `false`.
    Bool(bool),
    /// A number: its value where it is an unsigned 64-bit integer, and its
    /// text.
    Number(Option<u64>, String),
    /// A string, unescaped.
    Text(String),
    /// The texts of an array's elements.
    List(Vec<String>),
    /// The names and the texts of an object's members.
    Table(Vec<(String, String)>),
}

/// The view of a [`JsonNode`].
#[verifier::ext_equal]
pub enum JsonShape {
    /// `null`.
    Null,
    /// `true` or `false`.
    Bool(bool),
    /// A number: its value where it is an unsigned 64-bit integer, and its
    /// text.
    Number(Option<u64>, Seq<char>),
    /// A string.
    Text(Seq<char>),
    /// The texts of an array's elements.
    List(Seq<Seq<char>>),
    /// The names and the texts of an object's members.
    Table(Seq<(Seq<char>, Seq<char>)>),
}

/// The names and texts of a list of members.
pub open spec fn members(v: Seq<(String, String)>) -> Seq<(Seq<char>, Seq<char>)> {
    v.map_values(|m: (String, String)| (m.0@, m.1@))
}

impl View for JsonNode {
    type V = JsonShape;

    open spec fn view(&self) -> JsonShape {
        match *self {
            JsonNode::Null => JsonShape::Null,
            JsonNode::Bool(b) => JsonShape::Bool(b),
            JsonNode::Number(n, t) => JsonShape::Number(n, t@),
            JsonNode::Text(t) => JsonShape::Text(t@),
            JsonNode::List(v) => JsonShape::List(crate::text::strs(v@)),
            JsonNode::Table(v) => JsonShape::Table(members(v@)),
        }
    }
}

/// What reading a text as JSON gives: its outermost level, or the message of
/// the syntax error.
pub uninterp spec fn json_shape(text: Seq<char>) -> Result<JsonShape, Seq<char>>;

/// `serde_json::from_str::<serde_json::Value>`: the parsed value, opened one
/// level deep, is a function of the text alone, which `json_shape` names. An
/// element or member is handed out as the text that `Value::to_string` writes
/// for it, a parse error as its `Display` text. The crate is built with
/// `float_roundtrip`, so that a number that is written out and read again at
/// the next level stays the same.
#[verifier::external_body]
pub(crate) fn read_json(text: &str) -> (r: Result<JsonNode, String>)
    ensures
        match r {
            Ok(node) => json_shape(text@) == Ok::<JsonShape, Seq<char>>(node@),
            Err(e) => json_shape(text@) == Err::<JsonShape, Seq<char>>(e@),
        },
{
    serde_json::from_str::<Value>(text).map_err(|e| e.to_string()).map(|value| match value {
        Value::Null => JsonNode::Null,
        Value::Bool(b) => JsonNode::Bool(b),
        Value::Number(n) => JsonNode::Number(n.as_u64(), n.to_string()),
        Value::String(s) => JsonNode::Text(s),
        Value::Array(a) => JsonNode::List(a.iter().map(|v| v.to_string()).collect()),
        Value::Object(o) => JsonNode::Table(
            o.into_iter().map(|(k, v)| (k, v.to_string())).collect(),
        ),
    })
}

/// A lower-case hexadecimal digit.
pub open spec fn hex_digit(n: int) -> char {
    if n < 10 {
        (48 + n) as char
    } else {
        (87 + n) as char
    }
}

/// A character as it stands in a JSON string: quotes, backslashes and control
/// characters are escaped, everything else stands for itself.
pub open spec fn json_escape(c: char) -> Seq<char> {
    if c == '"' || c == '\\' {
        seq!['\\', c]
    } else if c == '\u{8}' {
        seq!['\\', 'b']
    } else if c == '\t' {
        seq!['\\', 't']
    } else if c == '\n' {
        seq!['\\', 'n']
    } else if c == '\u{c}' {
        seq!['\\', 'f']
    } else if c == '\r' {
        seq!['\\', 'r']
    } else if (c as u32) < 32 {
        seq!['\\', 'u', '0', '0', hex_digit(c as int / 16), hex_digit(c as int % 16)]
    } else {
        seq![c]
    }
}

/// A string as it stands in a JSON string.
pub open spec fn json_escaped(s: Seq<char>) -> Seq<char>
    decreases s.len(),
{
    if s.len() == 0 {
        Seq::empty()
    } else {
        json_escaped(s.drop_last()) + json_escape(s.last())
    }
}

/// A string written as a JSON string, quotes and escapes included.
pub open spec fn json_quote(s: Seq<char>) -> Seq<char> {
    seq!['"'] + json_escaped(s) + seq!['"']
}

/// The value of a hexadecimal digit, of either case.
pub open spec fn hex_value(c: char) -> Option<int> {
    if '0' <= c <= '9' {
        Some(c as int - '0' as int)
    } else if 'a' <= c <= 'f' {
        Some(c as int - 'a' as int + 10)
    } else if 'A' <= c <= 'F' {
        Some(c as int - 'A' as int + 10)
    } else {
        None
    }
}

/// What a JSON reader makes of the front of a string's inside: the character
/// that stands there, and how many characters write it. A quote that is not
/// escaped, a bare control character, an unknown escape and half of a
/// surrogate pair stand for none.
pub open spec fn first_char(s: Seq<char>) -> Option<(char, int)> {
    if s.len() == 0 || s[0] == '"' || (s[0] as u32) < 32 {
        None
    } else if s[0] != '\\' {
        Some((s[0], 1))
    } else if s.len() < 2 {
        None
    } else if s[1] == '"' || s[1] == '\\' || s[1] == '/' {
        Some((s[1], 2))
    } else if s[1] == 'b' {
        Some(('\u{8}', 2))
    } else if s[1] == 'f' {
        Some(('\u{c}', 2))
    } else if s[1] == 'n' {
        Some(('\n', 2))
    } else if s[1] == 'r' {
        Some(('\r', 2))
    } else if s[1] == 't' {
        Some(('\t', 2))
    } else if s[1] == 'u' && s.len() >= 6 {
        match (hex_value(s[2]), hex_value(s[3]), hex_value(s[4]), hex_value(s[5])) {
            (Some(a), Some(b), Some(c), Some(d)) => {
                let n = 4096 * a + 256 * b + 16 * c + d;
                if 0xd800 <= n < 0xe000 {
                    None
                } else {
                    Some((n as char, 6))
                }
            },
            _ => None,
        }
    } else {
        None
    }
}

/// What a JSON reader makes of the inside of a string.
pub open spec fn unescaped(s: Seq<char>) -> Option<Seq<char>>
    decreases s.len(),
{
    if s.len() == 0 {
        Some(Seq::empty())
    } else {
        match first_char(s) {
            Some((c, n)) => match unescaped(s.skip(n)) {
                Some(rest) => Some(seq![c] + rest),
                None => None,
            },
            None => None,
        }
    }
}

/// The string that a JSON text in quotes writes.
pub open spec fn unquoted(text: Seq<char>) -> Option<Seq<char>> {
    if text.len() >= 2 && text[0] == '"' && text.last() == '"' {
        unescaped(text.subrange(1, text.len() - 1))
    } else {
        None
    }
}

proof fn lemma_escaped_front(c: char, rest: Seq<char>)
    ensures
        json_escaped(seq![c] + rest) == json_escape(c) + json_escaped(rest),
    decreases rest.len(),
{
    let all = seq![c] + rest;
    if rest.len() == 0 {
        assert(all =~= seq![c]);
        assert(all.drop_last() =~= Seq::<char>::empty());
        assert(json_escaped(Seq::<char>::empty()) =~= Seq::empty());
        assert(rest =~= Seq::empty());
        assert(json_escaped(all) =~= json_escape(c) + json_escaped(rest));
    } else {
        assert(all.drop_last() =~= seq![c] + rest.drop_last());
        lemma_escaped_front(c, rest.drop_last());
        assert(json_escaped(all) =~= json_escape(c) + json_escaped(rest));
    }
}

#[verifier::rlimit(40)]
proof fn lemma_escape_is_read(c: char, tail: Seq<char>)
    ensures
        first_char(json_escape(c) + tail) == Some((c, json_escape(c).len() as int)),
{
    let s = json_escape(c) + tail;
    assert(s[0] == json_escape(c)[0]);
    if json_escape(c).len() == 6 {
        let n = c as int;
        assert(0 <= n < 32);
        assert(s[4] == hex_digit(n / 16) && s[5] == hex_digit(n % 16));
        assert(hex_value(hex_digit(n / 16)) == Some(n / 16));
        assert(hex_value(hex_digit(n % 16)) == Some(n % 16));
        assert(16 * (n / 16) + n % 16 == n);
    } else if json_escape(c).len() == 2 {
        assert(s[1] == json_escape(c)[1]);
    }
}

proof fn lemma_escaped_is_read(s: Seq<char>)
    ensures
        unescaped(json_escaped(s)) == Some(s),
    decreases s.len(),
{
    if s.len() == 0 {
        assert(json_escaped(s) =~= Seq::empty());
        assert(s =~= Seq::empty());
    } else {
        let rest = s.skip(1);
        assert(s =~= seq![s[0]] + rest);
        lemma_escaped_front(s[0], rest);
        lemma_escape_is_read(s[0], json_escaped(rest));
        let all = json_escape(s[0]) + json_escaped(rest);
        assert(all.skip(json_escape(s[0]).len() as int) =~= json_escaped(rest));
        lemma_escaped_is_read(rest);
    }
}

/// A string that is written as a JSON string is read back as it was, so two
/// strings are never written alike.
pub proof fn law_quoted_strings_are_read_back(s: Seq<char>)
    ensures
        unquoted(json_quote(s)) == Some(s),
{
    let text = json_quote(s);
    assert(text.subrange(1, text.len() - 1) =~= json_escaped(s));
    lemma_escaped_is_read(s);
}

/// `serde_json::to_string` on a string: writing a `str` to a buffer in memory
/// has no failing case, and the JSON text is the `json_quote` of the string.
#[verifier::external_body]
pub(crate) fn quote_json(s: &str) -> (r: String)
    ensures
        r@ == json_quote(s@),
{
    serde_json::to_string(s).unwrap()
}

/// The view of a [`Json`] value.
#[verifier::ext_equal]
pub enum JsonTree {
    /// `null`.
    Null,
    /// `true` or `false`.
    Bool(bool),
    /// A number: its value where it is an unsigned 64-bit integer, and its
    /// text.
    Number(Option<u64>, Seq<char>),
    /// A string.
    Text(Seq<char>),
    /// An array.
    List(Seq<JsonTree>),
    /// An object: the name and the value of each member.
    Table(Seq<(Seq<char>, JsonTree)>),
}

impl Json {
    /// The value with every string taken by its characters.
    pub open spec fn tree(self) -> JsonTree
        decreases self,
    {
        match self {
            Json::Null => JsonTree::Null,
            Json::Bool(b) => JsonTree::Bool(b),
            Json::Number(n, t) => JsonTree::Number(n, t@),
            Json::Text(t) => JsonTree::Text(t@),
            Json::List(v) => JsonTree::List(
                Seq::new(
                    v@.len(),
                    |i: int|
                        if 0 <= i < v@.len() {
                            v@[i].tree()
                        } else {
                            JsonTree::Null
                        },
                ),
            ),
            Json::Table(v) => JsonTree::Table(
                Seq::new(
                    v@.len(),
                    |i: int|
                        if 0 <= i < v@.len() {
                            (v@[i].0@, v@[i].1.tree())
                        } else {
                            (Seq::empty(), JsonTree::Null)
                        },
                ),
            ),
        }
    }
}

impl View for Json {
    type V = JsonTree;

    open spec fn view(&self) -> JsonTree {
        self.tree()
    }
}

/// How deep a document is opened: `serde_json` reads none that is nested
/// deeper.
pub const JSON_DEPTH: usize = 128;

/// The outermost level of `text`; a text that is no JSON counts as `null`.
pub open spec fn shape_or_null(text: Seq<char>) -> JsonShape {
    match json_shape(text) {
        Ok(s) => s,
        Err(_) => JsonShape::Null,
    }
}

/// The value that `text` writes, opened `depth` levels deep.
pub open spec fn tree_of(text: Seq<char>, depth: nat) -> JsonTree
    decreases depth,
{
    match shape_or_null(text) {
        JsonShape::Null => JsonTree::Null,
        JsonShape::Bool(b) => JsonTree::Bool(b),
        JsonShape::Number(n, t) => JsonTree::Number(n, t),
        JsonShape::Text(t) => JsonTree::Text(t),
        JsonShape::List(ts) => if depth == 0 {
            JsonTree::Null
        } else {
            JsonTree::List(Seq::new(ts.len(), |i: int| tree_of(ts[i], (depth - 1) as nat)))
        },
        JsonShape::Table(ms) => if depth == 0 {
            JsonTree::Null
        } else {
            JsonTree::Table(
                Seq::new(ms.len(), |i: int| (ms[i].0, tree_of(ms[i].1, (depth - 1) as nat))),
            )
        },
    }
}

/// The value that `text` writes, or the message of the syntax error.
pub open spec fn parsed(text: Seq<char>) -> Result<JsonTree, Seq<char>> {
    match json_shape(text) {
        Ok(_) => Ok(tree_of(text, JSON_DEPTH as nat)),
        Err(e) => Err(e),
    }
}

/// Builds the value of a JSON text, `depth` levels deep.
fn build_json(text: &str, depth: usize) -> (r: Json)
    ensures
        r@ == tree_of(text@, depth as nat),
    decreases depth,
{
    let node = match read_json(text) {
        Ok(n) => n,
        Err(_) => JsonNode::Null,
    };
    match node {
        JsonNode::Null => Json::Null,
        JsonNode::Bool(b) => Json::Bool(b),
        JsonNode::Number(n, t) => Json::Number(n, t),
        JsonNode::Text(t) => Json::Text(t),
        JsonNode::List(texts) => {
            if depth == 0 {
                return Json::Null;
            }
            let mut out: Vec<Json> = Vec::new();
            let mut i: usize = 0;
            while i < texts.len()
                invariant
                    depth > 0,
                    i <= texts@.len(),
                    out@.len() == i,
                    forall|k: int|
                        0 <= k < i ==> (#[trigger] out@[k])@ == tree_of(
                            texts@[k]@,
                            (depth - 1) as nat,
                        ),
                decreases texts@.len() - i,
            {
                out.push(build_json(texts[i].as_str(), depth - 1));
                i += 1;
            }
            let r = Json::List(out);
            proof {
                assert(shape_or_null(text@) == JsonShape::List(crate::text::strs(texts@)));
                assert(r@->List_0 =~= tree_of(text@, depth as nat)->List_0);
            }
            r
        },
        JsonNode::Table(texts) => {
            if depth == 0 {
                return Json::Null;
            }
            let mut out: Vec<(String, Json)> = Vec::new();
            let mut i: usize = 0;
            while i < texts.len()
                invariant
                    depth > 0,
                    i <= texts@.len(),
                    out@.len() == i,
                    forall|k: int|
                        0 <= k < i ==> (#[trigger] out@[k]).0@ == texts@[k].0@ && out@[k].1@
                            == tree_of(texts@[k].1@, (depth - 1) as nat),
                decreases texts@.len() - i,
            {
                let value = build_json(texts[i].1.as_str(), depth - 1);
                out.push((texts[i].0.clone(), value));
                i += 1;
            }
            let r = Json::Table(out);
            proof {
                assert(shape_or_null(text@) == JsonShape::Table(members(texts@)));
                assert(r@->Table_0 =~= tree_of(text@, depth as nat)->Table_0);
            }
            r
        },
    }
}

/// The view of a parse result.
pub open spec fn parse_view(r: Result<Json, String>) -> Result<JsonTree, Seq<char>> {
    match r {
        Ok(json) => Ok(json@),
        Err(e) => Err(e@),
    }
}

/// Parses a JSON text; the error is the parser's message.
pub fn parse_json(text: &str) -> (r: Result<Json, String>)
    ensures
        parse_view(r) == parsed(text@),
{
    match read_json(text) {
        Err(e) => Err(e),
        Ok(_) => Ok(build_json(text, JSON_DEPTH)),
    }
}

/// The value of the first member named `key`.
pub open spec fn table_get(table: Seq<(Seq<char>, JsonTree)>, key: Seq<char>) -> Option<JsonTree>
    decreases table.len(),
{
    if table.len() == 0 {
        None
    } else if table[0].0 == key {
        Some(table[0].1)
    } else {
        table_get(table.subrange(1, table.len() as int), key)
    }
}

/// The view of an optional string.
pub open spec fn opt_str(s: Option<String>) -> Option<Seq<char>> {
    match s {
        Some(s) => Some(s@),
        None => None,
    }
}

impl JsonTree {
    /// The member `key`: `None` where the value is no object or has no such
    /// member.
    pub open spec fn member(self, key: Seq<char>) -> Option<JsonTree> {
        match self {
            JsonTree::Table(t) => table_get(t, key),
            _ => None,
        }
    }

    /// The string that the value is.
    pub open spec fn text(self) -> Option<Seq<char>> {
        match self {
            JsonTree::Text(s) => Some(s),
            _ => None,
        }
    }

    /// The string under `key`: `None` where the value is no object, has no
    /// such member, or holds something else there.
    pub open spec fn member_text(self, key: Seq<char>) -> Option<Seq<char>> {
        match self.member(key) {
            Some(v) => v.text(),
            None => None,
        }
    }
}

/// What an optional reference refers to.
pub open spec fn opt_tree(v: Option<&Json>) -> Option<JsonTree> {
    match v {
        Some(j) => Some(j@),
        None => None,
    }
}

impl Json {
    /// The member `key` of an object.
    pub fn get(&self, key: &str) -> (r: Option<&Json>)
        ensures
            opt_tree(r) == self@.member(key@),
    {
        match self {
            Json::Table(t) => {
                let ghost all = self@->Table_0;
                let mut i: usize = 0;
                assert(all.subrange(0, all.len() as int) =~= all);
                while i < t.len()
                    invariant
                        *self == Json::Table(*t),
                        all == self@->Table_0,
                        i <= t@.len() == all.len(),
                        self@.member(key@) == table_get(
                            all.subrange(i as int, all.len() as int),
                            key@,
                        ),
                    decreases t@.len() - i,
                {
                    proof {
                        let rest = all.subrange(i as int, all.len() as int);
                        assert(rest[0] == all[i as int]);
                        assert(all[i as int] == (t@[i as int].0@, t@[i as int].1@));
                        assert(rest.subrange(1, rest.len() as int) =~= all.subrange(
                            i + 1,
                            all.len() as int,
                        ));
                    }
                    if str_eq(t[i].0.as_str(), key) {
                        return Some(&t[i].1);
                    }
                    i += 1;
                }
                None
            },
            _ => None,
        }
    }

    /// The string under `key` of an object.
    pub fn get_text(&self, key: &str) -> (r: Option<String>)
        ensures
            opt_str(r) == self@.member_text(key@),
    {
        match self.get(key) {
            Some(Json::Text(s)) => Some(s.clone()),
            _ => None,
        }
    }

    /// The string under `key` of an object, `default` where there is none.
    pub fn get_text_or(&self, key: &str, default: &str) -> (r: String)
        ensures
            r@ == (match self@.member_text(key@) {
                Some(s) => s,
                None => default@,
            }),
    {
        match self.get_text(key) {
            Some(s) => s,
            None => default.to_owned(),
        }
    }
}

/// The text of the first member named `key`.
pub open spec fn text_under(table: Seq<(Seq<char>, Seq<char>)>, key: Seq<char>) -> Option<Seq<char>>
    decreases table.len(),
{
    if table.len() == 0 {
        None
    } else if table[0].0 == key {
        Some(table[0].1)
    } else {
        text_under(table.drop_first(), key)
    }
}

/// The text of the member `key` of the object that `text` writes.
pub open spec fn member_of(text: Seq<char>, key: Seq<char>) -> Option<Seq<char>> {
    match json_shape(text) {
        Ok(JsonShape::Table(ms)) => text_under(ms, key),
        _ => None,
    }
}

/// The texts of the elements of the array that `text` writes.
pub open spec fn elements_of(text: Seq<char>) -> Option<Seq<Seq<char>>> {
    match json_shape(text) {
        Ok(JsonShape::List(ts)) => Some(ts),
        _ => None,
    }
}

/// The string that `text` writes.
pub open spec fn string_in(text: Seq<char>) -> Option<Seq<char>> {
    match json_shape(text) {
        Ok(JsonShape::Text(t)) => Some(t),
        _ => None,
    }
}

/// The text of the member `key` of the object that `text` writes.
pub fn read_member(text: &str, key: &str) -> (r: Option<String>)
    ensures
        opt_str(r) == member_of(text@, key@),
{
    match read_json(text) {
        Ok(JsonNode::Table(table)) => {
            let ghost all = members(table@);
            let mut i: usize = 0;
            assert(all.skip(0) =~= all);
            while i < table.len()
                invariant
                    i <= table@.len(),
                    all == members(table@),
                    member_of(text@, key@) == text_under(all.skip(i as int), key@),
                decreases table@.len() - i,
            {
                assert(all.skip(i as int)[0] == (table@[i as int].0@, table@[i as int].1@));
                assert(all.skip(i as int).drop_first() =~= all.skip(i + 1));
                if str_eq(table[i].0.as_str(), key) {
                    return Some(table[i].1.clone());
                }
                i += 1;
            }
            None
        },
        _ => None,
    }
}

/// The texts of the elements of the array that `text` writes.
pub fn read_elements(text: &str) -> (r: Option<Vec<String>>)
    ensures
        match r {
            Some(v) => elements_of(text@) == Some(crate::text::strs(v@)),
            None => elements_of(text@) is None,
        },
{
    match read_json(text) {
        Ok(JsonNode::List(v)) => Some(v),
        _ => None,
    }
}

/// The string that `text` writes.
pub fn read_string(text: &str) -> (r: Option<String>)
    ensures
        opt_str(r) == string_in(text@),
{
    match read_json(text) {
        Ok(JsonNode::Text(s)) => Some(s),
        _ => None,
    }
}

#[verifier::rlimit(40)]
proof fn lemma_front_is_read(s: Seq<char>, tail: Seq<char>)
    requires
        s.len() > 0,
    ensures
        first_char(json_escaped(s) + tail) == Some((s[0], json_escape(s[0]).len() as int)),
        json_escaped(s) + tail == json_escape(s[0]) + (json_escaped(s.skip(1)) + tail),
{
    let rest = s.skip(1);
    assert(s =~= seq![s[0]] + rest);
    lemma_escaped_front(s[0], rest);
    lemma_escape_is_read(s[0], json_escaped(rest) + tail);
    assert(json_escaped(s) + tail =~= json_escape(s[0]) + (json_escaped(rest) + tail));
}

proof fn lemma_quote_is_the_end(s: Seq<char>, tail: Seq<char>, rest: Seq<char>)
    requires
        json_escaped(s) + tail == seq!['"'] + rest,
    ensures
        s.len() == 0,
{
    let text = seq!['"'] + rest;
    assert(text[0] == '"');
    assert(first_char(text) is None);
    if s.len() > 0 {
        lemma_front_is_read(s, tail);
    }
}

#[verifier::rlimit(40)]
proof fn lemma_fronts_agree(a: Seq<char>, x: Seq<char>, b: Seq<char>, y: Seq<char>)
    requires
        a.len() > 0,
        b.len() > 0,
        json_escaped(a) + x == json_escaped(b) + y,
    ensures
        a[0] == b[0],
        json_escaped(a.skip(1)) + x == json_escaped(b.skip(1)) + y,
{
    lemma_front_is_read(a, x);
    lemma_front_is_read(b, y);
    let n = json_escape(a[0]).len() as int;
    let left = json_escape(a[0]) + (json_escaped(a.skip(1)) + x);
    let right = json_escape(b[0]) + (json_escaped(b.skip(1)) + y);
    assert(left == right);
    assert(left.skip(n) =~= json_escaped(a.skip(1)) + x);
    assert(right.skip(n) =~= json_escaped(b.skip(1)) + y);
}

proof fn lemma_escapes_end(a: Seq<char>, x: Seq<char>, b: Seq<char>, y: Seq<char>)
    requires
        json_escaped(a) + (seq!['"'] + x) == json_escaped(b) + (seq!['"'] + y),
    ensures
        a == b,
        x == y,
    decreases a.len(),
{
    let p = seq!['"'] + x;
    let q = seq!['"'] + y;
    if a.len() == 0 {
        assert(json_escaped(a) + p =~= p);
        lemma_quote_is_the_end(b, q, x);
        assert(json_escaped(b) + q =~= q);
        assert(a =~= b);
        assert(p.skip(1) =~= x);
        assert(q.skip(1) =~= y);
    } else if b.len() == 0 {
        assert(json_escaped(b) + q =~= q);
        lemma_quote_is_the_end(a, p, y);
    } else {
        lemma_fronts_agree(a, p, b, q);
        lemma_escapes_end(a.skip(1), x, b.skip(1), y);
        assert(a =~= seq![a[0]] + a.skip(1));
        assert(b =~= seq![b[0]] + b.skip(1));
    }
}

/// A quoted string ends at its own quote, whatever it holds and whatever
/// follows: two texts that begin with quoted strings are the same only where
/// both the strings and what follows are.
pub proof fn law_quoted_strings_end_at_their_quote(
    a: Seq<char>,
    x: Seq<char>,
    b: Seq<char>,
    y: Seq<char>,
)
    requires
        json_quote(a) + x == json_quote(b) + y,
    ensures
        a == b,
        x == y,
{
    let left = json_quote(a) + x;
    let right = json_quote(b) + y;
    assert(left.skip(1) =~= json_escaped(a) + (seq!['"'] + x));
    assert(right.skip(1) =~= json_escaped(b) + (seq!['"'] + y));
    lemma_escapes_end(a, x, b, y);
}

proof fn lemma_members_agree(
    ms: Seq<(Seq<char>, Seq<char>)>,
    table: Seq<(Seq<char>, JsonTree)>,
    key: Seq<char>,
    depth: nat,
)
    requires
        table.len() == ms.len(),
        forall|i: int|
            0 <= i < ms.len() ==> (#[trigger] table[i]) == (ms[i].0, tree_of(ms[i].1, depth)),
    ensures
        table_get(table, key) == (match text_under(ms, key) {
            Some(t) => Some(tree_of(t, depth)),
            None => None,
        }),
    decreases ms.len(),
{
    if ms.len() > 0 {
        assert(table[0] == (ms[0].0, tree_of(ms[0].1, depth)));
        let less = ms.drop_first();
        let rest = table.subrange(1, table.len() as int);
        assert forall|i: int| 0 <= i < less.len() implies (#[trigger] rest[i]) == (
            less[i].0,
            tree_of(less[i].1, depth),
        ) by {
            assert(rest[i] == table[i + 1]);
            assert(less[i] == ms[i + 1]);
        }
        lemma_members_agree(less, rest, key, depth);
    }
}

/// Both ways of reading a text find the same: the string under a key of a
/// parsed object is the string in the text of that member, and there is none
/// where the text is no object or the member no string.
pub proof fn law_readers_agree(text: Seq<char>, key: Seq<char>)
    requires
        parsed(text) is Ok,
    ensures
        (parsed(text)->Ok_0).member_text(key) == (match member_of(text, key) {
            Some(t) => string_in(t),
            None => None,
        }),
{
    if let JsonShape::Table(ms) = shape_or_null(text) {
        let depth = (JSON_DEPTH - 1) as nat;
        let table = Seq::new(ms.len(), |i: int| (ms[i].0, tree_of(ms[i].1, depth)));
        lemma_members_agree(ms, table, key, depth);
        let tree = tree_of(text, JSON_DEPTH as nat);
        assert(tree is Table);
        assert(tree->Table_0 =~= table);
    }
}

} // verus!
