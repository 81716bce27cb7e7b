//! Conversation memory: user preferences and recent conversation summaries.
//!
//! [`MemoryStore`] is intentionally simple: what one JSON file holds. The
//! file is read before [`open`](MemoryStore::open) and written after every
//! mutation.

use vstd::prelude::*;

use crate::sorted::{
    in_order, lemma_mapped_in_order, lemma_mapped_lookup, lemma_mapped_with, lookup, mapped, with,
    SortedMap,
};
use crate::text::{
    chars_of, clone_strings, contains, contains_str, join, join_strings, lowercase, string_of, strs,
    to_lowercase, trim, trimmed,
};

verus! {

/// Maximum number of recent conversation summaries retained.
pub const MAX_SUMMARIES: usize = 10;

/// Rough per-turn summary cap (characters), keeping the file small.
pub const SUMMARY_MAX_CHARS: usize = 280;

/// What a memory file holds.
#[derive(Debug, Clone)]
pub struct MemoryData {
    /// Key→value preferences the user has stated
    /// ([`MemoryStore::remember`]).
    pub preferences: Vec<(String, String)>,
    /// Recent conversation summaries, oldest first
    /// ([`MemoryStore::summarize_turn`]).
    pub summaries: Vec<String>,
}

/// Names and values by their texts.
pub open spec fn pairs(v: Seq<(String, String)>) -> Seq<(Seq<char>, Seq<char>)> {
    v.map_values(|e: (String, String)| (e.0@, e.1@))
}

/// Values by their texts.
pub open spec fn texts(v: Seq<(Seq<char>, String)>) -> Seq<(Seq<char>, Seq<char>)> {
    mapped(v, |s: String| s@)
}

/// A map filled from pairs, of which the last one under a name counts.
pub open spec fn filled(v: Seq<(Seq<char>, Seq<char>)>) -> Seq<(Seq<char>, Seq<char>)>
    decreases v.len(),
{
    if v.len() == 0 {
        Seq::empty()
    } else {
        with(filled(v.drop_last()), v.last().0, v.last().1)
    }
}

/// The state of a [`MemoryStore`].
#[verifier::ext_equal]
pub struct MemoryView {
    /// Where it is kept.
    pub path: Seq<char>,
    /// The preferences, in the order of their keys.
    pub preferences: Seq<(Seq<char>, Seq<char>)>,
    /// The summaries, oldest first.
    pub summaries: Seq<Seq<char>>,
}

/// Whether a preference matches a lower-case query, in its key or its value.
pub open spec fn is_match(e: (Seq<char>, Seq<char>), q: Seq<char>) -> bool {
    contains(lowercase(e.0), q) || contains(lowercase(e.1), q)
}

/// The preferences that match a lower-case query.
pub open spec fn matching(v: Seq<(Seq<char>, Seq<char>)>, q: Seq<char>) -> Seq<
    (Seq<char>, Seq<char>),
>
    decreases v.len(),
{
    if v.len() == 0 {
        Seq::empty()
    } else if is_match(v.last(), q) {
        matching(v.drop_last(), q).push(v.last())
    } else {
        matching(v.drop_last(), q)
    }
}

proof fn lemma_everything_matches(v: Seq<(Seq<char>, Seq<char>)>, q: Seq<char>)
    requires
        q.len() == 0,
    ensures
        matching(v, q) == v,
    decreases v.len(),
{
    if v.len() > 0 {
        lemma_everything_matches(v.drop_last(), q);
        let key = lowercase(v.last().0);
        assert(key.subrange(0, 0) =~= q);
        assert(crate::text::matches_at(key, q, 0));
        assert(v.drop_last().push(v.last()) =~= v);
    } else {
        assert(matching(v, q) =~= v);
    }
}

proof fn lemma_matching(v: Seq<(Seq<char>, Seq<char>)>, q: Seq<char>, e: (Seq<char>, Seq<char>))
    requires
        in_order(v),
    ensures
        matching(v, q).contains(e) <==> lookup(v, e.0) == Some(e.1) && is_match(e, q),
        in_order(matching(v, q)),
        forall|i: int|
            0 <= i < matching(v, q).len() ==> v.contains(#[trigger] matching(v, q)[i]),
    decreases v.len(),
{
    if v.len() > 0 {
        let below = v.drop_last();
        let last = v.last();
        assert(last == v[v.len() - 1]);
        assert forall|i: int, j: int| 0 <= i < j < below.len() implies crate::sorted::precedes(
            (#[trigger] below[i]).0,
            (#[trigger] below[j]).0,
        ) by {
            assert(below[i] == v[i] && below[j] == v[j]);
        }
        lemma_matching(below, q, e);
        let m = matching(below, q);
        assert forall|i: int| 0 <= i < m.len() implies v.contains(#[trigger] m[i])
            && crate::sorted::precedes(m[i].0, last.0) by {
            assert(below.contains(m[i]));
            let k = choose|k: int| 0 <= k < below.len() && below[k] == m[i];
            assert(v[k] == m[i]);
            assert(crate::sorted::precedes(v[k].0, v[v.len() - 1].0));
        }
        crate::sorted::law_names_are_ordered(last.0, last.0);
        if is_match(last, q) {
            let w = m.push(last);
            assert(w.contains(e) <==> m.contains(e) || e == last) by {
                if m.contains(e) {
                    let k = choose|k: int| 0 <= k < m.len() && m[k] == e;
                    assert(w[k] == e);
                }
                if e == last {
                    assert(w[m.len() as int] == e);
                }
                if w.contains(e) {
                    let k = choose|k: int| 0 <= k < w.len() && w[k] == e;
                    if k < m.len() {
                        assert(m[k] == e);
                    }
                }
            }
            assert forall|i: int| 0 <= i < w.len() implies v.contains(#[trigger] w[i]) by {
                if i == m.len() {
                    assert(v[v.len() - 1] == w[i]);
                } else {
                    assert(w[i] == m[i]);
                }
            }
            assert forall|i: int, j: int| 0 <= i < j < w.len() implies crate::sorted::precedes(
                (#[trigger] w[i]).0,
                (#[trigger] w[j]).0,
            ) by {
                assert(w[i] == m[i]);
                if j < m.len() {
                    assert(w[j] == m[j]);
                }
            }
        }
        if e.0 == last.0 && m.contains(e) {
            let k = choose|k: int| 0 <= k < m.len() && m[k] == e;
            assert(crate::sorted::precedes(m[k].0, last.0));
        }
    }
}

/// A preference as `key: value`.
pub open spec fn labelled(e: (Seq<char>, Seq<char>)) -> Seq<char> {
    e.0 + ": "@ + e.1
}

/// Preferences as `key: value`.
pub open spec fn all_labelled(v: Seq<(Seq<char>, Seq<char>)>) -> Seq<Seq<char>> {
    v.map_values(|e: (Seq<char>, Seq<char>)| labelled(e))
}

/// The last `n` entries of a list.
pub open spec fn keep_last(v: Seq<Seq<char>>, n: nat) -> Seq<Seq<char>> {
    if v.len() > n {
        v.skip(v.len() - n)
    } else {
        v
    }
}

/// The bytes of a character in UTF-8.
pub open spec fn char_bytes(c: char) -> nat {
    if (c as u32) < 0x80 {
        1
    } else if (c as u32) < 0x800 {
        2
    } else if (c as u32) < 0x10000 {
        3
    } else {
        4
    }
}

/// The bytes of a text in UTF-8.
pub open spec fn byte_len(s: Seq<char>) -> nat
    decreases s.len(),
{
    if s.len() == 0 {
        0
    } else {
        byte_len(s.drop_last()) + char_bytes(s.last())
    }
}

/// `s` without the characters at its end that do not fit into `max` bytes.
pub open spec fn truncated(s: Seq<char>, max: nat) -> Seq<char>
    decreases s.len(),
{
    if s.len() == 0 || byte_len(s) <= max {
        s
    } else {
        truncated(s.drop_last(), max)
    }
}

proof fn lemma_truncated(s: Seq<char>, max: nat, n: int)
    requires
        0 <= n <= s.len(),
        byte_len(s.take(n)) <= max,
        n < s.len() ==> byte_len(s.take(n + 1)) > max,
    ensures
        truncated(s, max) == s.take(n),
    decreases s.len(),
{
    if n == s.len() {
        assert(s.take(n) =~= s);
    } else {
        lemma_byte_len_grows(s, n + 1);
        assert(s.drop_last().take(n) =~= s.take(n));
        if n < s.len() - 1 {
            assert(s.drop_last().take(n + 1) =~= s.take(n + 1));
        }
        lemma_truncated(s.drop_last(), max, n);
    }
}

proof fn lemma_byte_len_grows(s: Seq<char>, n: int)
    requires
        0 <= n <= s.len(),
    ensures
        byte_len(s.take(n)) <= byte_len(s),
    decreases s.len(),
{
    if n == s.len() {
        assert(s.take(n) =~= s);
    } else {
        lemma_byte_len_grows(s.drop_last(), n);
        assert(s.drop_last().take(n) =~= s.take(n));
    }
}

/// Truncates `s` to at most `max` bytes, backing up to a UTF-8 char boundary.
pub fn truncate(s: &str, max: usize) -> (r: String)
    ensures
        r@ == truncated(s@, max as nat),
{
    let v = chars_of(s);
    let mut n: usize = 0;
    let mut used: usize = 0;
    assert(v@.take(0).len() == 0);
    while n < v.len()
        invariant
            v@ == s@,
            n <= v@.len(),
            used == byte_len(v@.take(n as int)),
            used <= max,
        ensures
            n < v@.len() ==> byte_len(v@.take(n + 1)) > max,
        decreases v@.len() - n,
    {
        let c: u32 = v[n] as u32;
        let bytes: usize = if c < 0x80 {
            1
        } else if c < 0x800 {
            2
        } else if c < 0x10000 {
            3
        } else {
            4
        };
        assert(v@.take(n + 1).drop_last() =~= v@.take(n as int));
        if bytes > max - used {
            break;
        }
        used += bytes;
        n += 1;
    }
    proof {
        lemma_truncated(v@, max as nat, n as int);
        assert(v@.subrange(0, n as int) =~= v@.take(n as int));
    }
    string_of(&v, 0, n)
}

/// What is cut to `max` bytes is a prefix of no more bytes, and a text that
/// fits is kept whole.
pub proof fn law_truncation_fits(s: Seq<char>, max: nat)
    ensures
        byte_len(truncated(s, max)) <= max,
        truncated(s, max).len() <= s.len(),
        truncated(s, max) == s.take(truncated(s, max).len() as int),
        byte_len(s) <= max ==> truncated(s, max) == s,
    decreases s.len(),
{
    if s.len() == 0 || byte_len(s) <= max {
        assert(s.take(s.len() as int) =~= s);
    } else {
        law_truncation_fits(s.drop_last(), max);
        let n = truncated(s.drop_last(), max).len() as int;
        assert(s.drop_last().take(n) =~= s.take(n));
    }
}

/// The summary of a turn, each side cut to half of [`SUMMARY_MAX_CHARS`].
pub open spec fn turn_summary(user_text: Seq<char>, agent_reply: Seq<char>) -> Seq<char> {
    "User: "@ + truncated(trimmed(user_text), 140) + " | Assistant: "@ + truncated(
        trimmed(agent_reply),
        140,
    )
}

/// Builds a compact `User: … | Assistant: …` summary, truncating each side
/// so the rolling list stays small.
pub fn format_turn_summary(user_text: &str, agent_reply: &str) -> (r: String)
    ensures
        r@ == turn_summary(user_text@, agent_reply@),
{
    let half: usize = SUMMARY_MAX_CHARS / 2;
    let user = truncate(trim(user_text).as_str(), half);
    let agent = truncate(trim(agent_reply).as_str(), half);
    "User: ".to_owned().concat(user.as_str()).concat(" | Assistant: ").concat(agent.as_str())
}

/// A simple conversation memory.
///
/// Stores two things:
/// * **preferences** — arbitrary key/value pairs the user has expressed
///   ([`remember`](Self::remember) / [`recall`](Self::recall)); and
/// * **summaries** — a rolling list of recent turn summaries
///   ([`summarize_turn`](Self::summarize_turn)), capped at
///   [`MAX_SUMMARIES`] entries.
#[derive(Debug)]
pub struct MemoryStore {
    path: String,
    preferences: SortedMap<String>,
    summaries: Vec<String>,
}

impl View for MemoryStore {
    type V = MemoryView;

    closed spec fn view(&self) -> MemoryView {
        MemoryView {
            path: self.path@,
            preferences: texts(self.preferences@),
            summaries: strs(self.summaries@),
        }
    }
}

impl MemoryStore {
    /// The keys of the preferences are in order, each once.
    pub closed spec fn wf(&self) -> bool {
        in_order(self.preferences@)
    }

    /// Opens the store at `path` with what its file holds. A missing,
    /// unreadable or malformed file (`None`) yields an empty store — memory
    /// is best-effort, never a hard dependency.
    pub fn open(path: String, data: Option<MemoryData>) -> (r: Self)
        ensures
            r.wf(),
            r@ == (match data {
                Some(d) => MemoryView {
                    path: path@,
                    preferences: filled(pairs(d.preferences@)),
                    summaries: strs(d.summaries@),
                },
                None => MemoryView {
                    path: path@,
                    preferences: Seq::empty(),
                    summaries: Seq::empty(),
                },
            }),
    {
        let mut preferences: SortedMap<String> = SortedMap::new();
        let mut summaries: Vec<String> = Vec::new();
        if let Some(d) = data {
            let ghost all = pairs(d.preferences@);
            let mut i: usize = 0;
            assert(texts(preferences@) =~= filled(all.take(0)));
            while i < d.preferences.len()
                invariant
                    all == pairs(d.preferences@),
                    i <= d.preferences@.len(),
                    in_order(preferences@),
                    texts(preferences@) == filled(all.take(i as int)),
                decreases d.preferences@.len() - i,
            {
                let key = d.preferences[i].0.clone();
                let value = d.preferences[i].1.clone();
                proof {
                    lemma_mapped_with(preferences@, key@, value, |s: String| s@);
                    assert(all.take(i + 1).drop_last() =~= all.take(i as int));
                    assert(all.take(i + 1).last() == (key@, value@));
                }
                preferences.insert(key, value);
                i += 1;
            }
            assert(all.take(all.len() as int) =~= all);
            summaries = clone_strings(&d.summaries);
        } else {
            assert(texts(preferences@) =~= Seq::empty());
            assert(strs(summaries@) =~= Seq::empty());
        }
        MemoryStore { path, preferences, summaries }
    }

    /// Remembers a preference (`key` → `value`), overwriting any prior value
    /// for `key`.
    pub fn remember(&mut self, key: &str, value: &str)
        requires
            old(self).wf(),
        ensures
            final(self).wf(),
            final(self)@ == (MemoryView {
                preferences: with(old(self)@.preferences, key@, value@),
                ..old(self)@
            }),
    {
        let text = value.to_owned();
        proof {
            lemma_mapped_with(self.preferences@, key@, text, |s: String| s@);
        }
        self.preferences.insert(key.to_owned(), text);
    }

    /// Recalls a previously remembered preference, or `None` if `key` was
    /// never stored.
    pub fn recall(&self, key: &str) -> (r: Option<String>)
        ensures
            crate::json::opt_str(r) == lookup(self@.preferences, key@),
    {
        proof {
            lemma_mapped_lookup(self.preferences@, key@, |s: String| s@);
        }
        match self.preferences.get(key) {
            Some(v) => Some(v.clone()),
            None => None,
        }
    }

    /// Searches preferences for `query` in both keys and values
    /// (case-insensitive substring match). Returns matching `(key, value)`
    /// pairs, all of them for an empty query.
    pub fn search_preferences(&self, query: &str) -> (r: Vec<(String, String)>)
        ensures
            pairs(r@) == matching(self@.preferences, lowercase(query@)),
            query@.len() == 0 ==> pairs(r@) == self@.preferences,
    {
        let q = to_lowercase(query);
        proof {
            if q@.len() == 0 {
                lemma_everything_matches(self@.preferences, q@);
            }
        }
        let ghost all = self@.preferences;
        let mut out: Vec<(String, String)> = Vec::new();
        let mut i: usize = 0;
        assert(pairs(out@) =~= matching(all.take(0), q@));
        while i < self.preferences.len()
            invariant
                all == self@.preferences,
                all.len() == self.preferences@.len(),
                i <= all.len(),
                q@ == lowercase(query@),
                pairs(out@) == matching(all.take(i as int), q@),
            decreases all.len() - i,
        {
            let (key, value) = self.preferences.entry(i);
            assert(all.take(i + 1).drop_last() =~= all.take(i as int));
            assert(all.take(i + 1).last() == (key@, value@));
            if contains_str(to_lowercase(key.as_str()).as_str(), q.as_str()) || contains_str(
                to_lowercase(value.as_str()).as_str(),
                q.as_str(),
            ) {
                let ghost before = out@;
                out.push((key.clone(), value.clone()));
                assert(pairs(out@) =~= pairs(before).push((key@, value@)));
            }
            i += 1;
        }
        assert(all.take(all.len() as int) =~= all);
        out
    }

    /// Returns the number of stored preferences.
    pub fn preference_count(&self) -> (r: usize)
        ensures
            r == self@.preferences.len(),
    {
        self.preferences.len()
    }

    /// All preferences, in the order of their keys.
    pub fn preferences(&self) -> (r: Vec<(String, String)>)
        ensures
            pairs(r@) == self@.preferences,
    {
        let ghost all = self@.preferences;
        let mut out: Vec<(String, String)> = Vec::new();
        let mut i: usize = 0;
        assert(pairs(out@) =~= all.take(0));
        while i < self.preferences.len()
            invariant
                all == self@.preferences,
                all.len() == self.preferences@.len(),
                i <= all.len(),
                pairs(out@) == all.take(i as int),
            decreases all.len() - i,
        {
            let (key, value) = self.preferences.entry(i);
            let ghost before = out@;
            out.push((key.clone(), value.clone()));
            assert(pairs(out@) =~= pairs(before).push((key@, value@)));
            assert(all.take(i + 1) =~= all.take(i as int).push(all[i as int]));
            i += 1;
        }
        assert(all.take(all.len() as int) =~= all);
        out
    }

    /// Records a one-line summary of a completed turn (`user_text` in,
    /// `agent_reply` out), appends it to the rolling list and trims to the
    /// last [`MAX_SUMMARIES`] entries.
    pub fn summarize_turn(&mut self, user_text: &str, agent_reply: &str)
        requires
            old(self).wf(),
        ensures
            final(self).wf(),
            final(self)@ == (MemoryView {
                summaries: keep_last(
                    old(self)@.summaries.push(turn_summary(user_text@, agent_reply@)),
                    MAX_SUMMARIES as nat,
                ),
                ..old(self)@
            }),
    {
        let summary = format_turn_summary(user_text, agent_reply);
        let ghost all = self@.summaries.push(summary@);
        self.summaries.push(summary);
        assert(strs(self.summaries@) =~= all);
        while self.summaries.len() > MAX_SUMMARIES
            invariant
                self.wf(),
                self.path == old(self).path,
                self.preferences == old(self).preferences,
                self.summaries@.len() <= all.len(),
                self.summaries@.len() >= keep_last(all, MAX_SUMMARIES as nat).len(),
                strs(self.summaries@) == all.skip(all.len() - self.summaries@.len()),
            decreases self.summaries@.len(),
        {
            let ghost before = self.summaries@;
            let _ = self.summaries.remove(0);
            assert(self.summaries@ =~= before.skip(1));
            assert(strs(self.summaries@) =~= strs(before).skip(1));
            assert(strs(self.summaries@) =~= all.skip(all.len() - self.summaries@.len()));
        }
        assert(self@.summaries =~= keep_last(all, MAX_SUMMARIES as nat));
    }

    /// Formats all remembered preferences as `key: value; key: value` for
    /// system-prompt injection, or `None` when there are none.
    pub fn preferences_summary(&self) -> (r: Option<String>)
        ensures
            crate::json::opt_str(r) == (if self@.preferences.len() == 0 {
                None
            } else {
                Some(join(all_labelled(self@.preferences), "; "@))
            }),
    {
        if self.preferences.len() == 0 {
            return None;
        }
        Some(join_strings(&label_all(&self.preferences()), "; "))
    }

    /// Returns the recent conversation summaries, oldest first (cloned for
    /// inspection/tests).
    pub fn summaries(&self) -> (r: Vec<String>)
        ensures
            strs(r@) == self@.summaries,
    {
        clone_strings(&self.summaries)
    }

    /// The on-disk path this store reads and writes.
    pub fn path(&self) -> (r: &str)
        ensures
            r@ == self@.path,
    {
        self.path.as_str()
    }
}

/// Preferences as `key: value`.
pub fn label_all(v: &Vec<(String, String)>) -> (r: Vec<String>)
    ensures
        strs(r@) == all_labelled(pairs(v@)),
{
    let ghost all = all_labelled(pairs(v@));
    let mut out: Vec<String> = Vec::new();
    let mut i: usize = 0;
    assert(strs(out@) =~= all.take(0));
    while i < v.len()
        invariant
            all == all_labelled(pairs(v@)),
            i <= v@.len(),
            strs(out@) == all.take(i as int),
        decreases v@.len() - i,
    {
        let ghost before = out@;
        let line = v[i].0.as_str().to_owned().concat(": ").concat(v[i].1.as_str());
        out.push(line);
        assert(strs(out@) =~= strs(before).push(line@));
        assert(all.take(i + 1) =~= all.take(i as int).push(all[i as int]));
        i += 1;
    }
    assert(all.take(all.len() as int) =~= all);
    out
}

/// What was remembered last under a key is recalled, and other keys keep what
/// they had.
pub proof fn law_remembered_is_recalled(
    store: MemoryStore,
    key: Seq<char>,
    value: Seq<char>,
    other: Seq<char>,
)
    requires
        store.wf(),
    ensures
        lookup(with(store@.preferences, key, value), key) == Some(value),
        other != key ==> lookup(with(store@.preferences, key, value), other) == lookup(
            store@.preferences,
            other,
        ),
{
    lemma_mapped_in_order(store.preferences@, |s: String| s@);
    crate::sorted::law_inserted_values_are_found(store@.preferences, key, value, other);
}

/// A search finds a preference exactly when its key recalls its value and one
/// of the two matches the query, and finds them in the order of their keys,
/// each key once.
pub proof fn law_searches_agree_with_recall(
    store: MemoryStore,
    query: Seq<char>,
    key: Seq<char>,
    value: Seq<char>,
)
    requires
        store.wf(),
    ensures
        matching(store@.preferences, lowercase(query)).contains((key, value)) <==> lookup(
            store@.preferences,
            key,
        ) == Some(value) && (contains(lowercase(key), lowercase(query)) || contains(
            lowercase(value),
            lowercase(query),
        )),
        in_order(matching(store@.preferences, lowercase(query))),
{
    lemma_mapped_in_order(store.preferences@, |s: String| s@);
    lemma_matching(store@.preferences, lowercase(query), (key, value));
}

/// The preferences of a store stand in the order of their keys, each key once,
/// and do so after one more is remembered; their number grows by one for a new
/// key and stays for one that is there.
pub proof fn law_preferences_stay_ordered(store: MemoryStore, key: Seq<char>, value: Seq<char>)
    requires
        store.wf(),
    ensures
        in_order(store@.preferences),
        in_order(with(store@.preferences, key, value)),
        with(store@.preferences, key, value).len() == store@.preferences.len() + if lookup(
            store@.preferences,
            key,
        ) is Some {
            0int
        } else {
            1int
        },
{
    lemma_mapped_in_order(store.preferences@, |s: String| s@);
    crate::sorted::law_order_is_kept(store@.preferences, key, value);
    crate::sorted::law_names_are_counted(store@.preferences, key, value);
}

/// After a turn there are no more than [`MAX_SUMMARIES`] summaries, the last
/// of them that turn's.
pub proof fn law_summaries_are_capped(summaries: Seq<Seq<char>>, latest: Seq<char>)
    ensures
        keep_last(summaries.push(latest), MAX_SUMMARIES as nat).len() <= MAX_SUMMARIES,
        keep_last(summaries.push(latest), MAX_SUMMARIES as nat).last() == latest,
{
}

/// A cut keeps as much as fits: one more character would be too many bytes.
pub proof fn law_truncation_keeps_all_that_fits(s: Seq<char>, max: nat)
    ensures
        truncated(s, max).len() < s.len() ==> byte_len(s.take(truncated(s, max).len() as int + 1))
            > max,
    decreases s.len(),
{
    if s.len() > 0 && byte_len(s) > max {
        let rest = s.drop_last();
        law_truncation_keeps_all_that_fits(rest, max);
        law_truncation_fits(rest, max);
        let n = truncated(rest, max).len() as int;
        if n < rest.len() {
            assert(rest.take(n + 1) =~= s.take(n + 1));
        } else {
            assert(s.take(n + 1) =~= s);
        }
    }
}

/// The bytes of a text are those of its UTF-8 encoding.
pub proof fn law_bytes_are_utf8(s: Seq<char>)
    ensures
        byte_len(s) == vstd::utf8::encode_utf8(s).len(),
    decreases s.len(),
{
    if s.len() > 0 {
        let rest = s.drop_first();
        law_bytes_are_utf8(rest);
        lemma_byte_len_front(s);
        lemma_char_bytes(s[0]);
    }
}

proof fn lemma_char_bytes(c: char)
    ensures
        char_bytes(c) == vstd::utf8::encode_scalar(c as u32).len(),
{
}

proof fn lemma_byte_len_front(s: Seq<char>)
    requires
        s.len() > 0,
    ensures
        byte_len(s) == char_bytes(s[0]) + byte_len(s.drop_first()),
    decreases s.len(),
{
    if s.len() > 1 {
        lemma_byte_len_front(s.drop_last());
        assert(s.drop_last().drop_first() =~= s.drop_first().drop_last());
        assert(s.drop_first().last() == s.last());
    } else {
        assert(s.drop_last() =~= Seq::empty());
        assert(s.drop_first() =~= Seq::empty());
        assert(byte_len(Seq::<char>::empty()) == 0);
    }
}

/// A turn is summed up by both its sides: texts without surrounding white space
/// that are no longer than 140 bytes stand in the summary as they are.
pub proof fn law_short_turns_are_summed_up_whole(user: Seq<char>, reply: Seq<char>)
    requires
        byte_len(user) <= 140,
        byte_len(reply) <= 140,
        user.len() > 0 ==> !crate::text::is_white(user[0]) && !crate::text::is_white(user.last()),
        reply.len() > 0 ==> !crate::text::is_white(reply[0]) && !crate::text::is_white(
            reply.last(),
        ),
    ensures
        turn_summary(user, reply) == "User: "@ + user + " | Assistant: "@ + reply,
{
}

/// The last ten turns are remembered, in order: each summary of a turn that is
/// no further back than that stays, and older ones go.
pub proof fn law_recent_summaries_stay(summaries: Seq<Seq<char>>, latest: Seq<char>, i: int)
    requires
        0 <= i < 10,
        i <= summaries.len(),
    ensures
        ({
            let kept = keep_last(summaries.push(latest), MAX_SUMMARIES as nat);
            &&& kept.len() == if summaries.len() < 10 {
                summaries.len() + 1
            } else {
                10
            }
            &&& kept[kept.len() - 1 - i] == if i == 0 {
                latest
            } else {
                summaries[summaries.len() - i]
            }
        }),
{
}

/// What a memory file holds under a name is recalled: of several entries of one
/// name the last, and nothing under a name that has none.
pub proof fn law_files_are_recalled(v: Seq<(Seq<char>, Seq<char>)>, key: Seq<char>, k: int)
    ensures
        in_order(filled(v)),
        0 <= k < v.len() && v[k].0 == key && (forall|j: int|
            k < j < v.len() ==> (#[trigger] v[j]).0 != key) ==> lookup(filled(v), key) == Some(
            v[k].1,
        ),
        (forall|j: int| 0 <= j < v.len() ==> (#[trigger] v[j]).0 != key) ==> lookup(
            filled(v),
            key,
        ) is None,
    decreases v.len(),
{
    if v.len() > 0 {
        let rest = v.drop_last();
        law_files_are_recalled(rest, key, k);
        let (name, value) = v.last();
        crate::sorted::law_order_is_kept(filled(rest), name, value);
        crate::sorted::law_inserted_values_are_found(filled(rest), name, value, key);
        assert(v[v.len() - 1] == v.last());
        if forall|j: int| 0 <= j < v.len() ==> (#[trigger] v[j]).0 != key {
            assert forall|j: int| 0 <= j < rest.len() implies (#[trigger] rest[j]).0 != key by {
                assert(v[j].0 != key);
            }
        }
        if 0 <= k < rest.len() && forall|j: int|
            k < j < v.len() ==> (#[trigger] v[j]).0 != key {
            assert forall|j: int| k < j < rest.len() implies (#[trigger] rest[j]).0 != key by {
                assert(v[j].0 != key);
            }
        }
    }
}

} // verus!
