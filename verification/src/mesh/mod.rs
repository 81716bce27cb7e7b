//! Multi-agent mesh networking: LAN peer discovery via UDP broadcast, a
//! peer table, a tiny embedded HTTP server that accepts forwarded calls, and
//! routing of `forward_call` tool invocations to discovered peers.
//!
//! # Protocol
//!
//! Each node broadcasts a UDP datagram `skadoosh-mesh {name} {http_port}`
//! to the LAN broadcast address every [`ANNOUNCE_INTERVAL`] (10 s). Peers
//! hearing it record `{name} → ip:http_port` in their peer table.
//!
//! # Forwarding
//!
//! When the LLM invokes `forward_call` with a `target` peer name, the mesh
//! resolves the name to the peer's HTTP endpoint; the conversation context is
//! POSTed to `http://{endpoint}/forward`, and the peer's text reply relayed
//! back as the tool result.
//!
//! The sockets are elsewhere: here is what is sent, what a datagram or a
//! request means, and what is answered. Moments are nanoseconds on one clock.

use vstd::prelude::*;

use crate::json::opt_str;
use crate::sorted::{
    in_order, lemma_mapped_in_order, lemma_mapped_lookup, lemma_mapped_with, lookup, mapped, with,
    SortedMap,
};
use crate::text::{
    chars_eq, chars_of, decimal, decimal_string, parse_unsigned, split_words, str_eq, string_of,
    strs, unsigned, words,
};

pub mod http;
pub mod node;

pub use node::MeshNode;

verus! {

/// Magic prefix for mesh announcement datagrams:
/// `skadoosh-mesh {name} {http_port}`.
pub const MESH_ANNOUNCE_PREFIX: &'static str = "skadoosh-mesh";

/// Default UDP discovery + HTTP port for the mesh.
pub const DEFAULT_MESH_PORT: u16 = 9876;

/// How often a node broadcasts its announcement datagram, in nanoseconds.
pub const ANNOUNCE_INTERVAL: u64 = 10_000_000_000;

/// Peers not heard from within this window (in nanoseconds) are pruned from
/// the table.
pub const PEER_TTL: u64 = 30_000_000_000;

// ---------------------------------------------------------------------------
// Announcements
// ---------------------------------------------------------------------------

/// The announcement of a node.
pub open spec fn announcement(name: Seq<char>, http_port: u16) -> Seq<char> {
    "skadoosh-mesh"@ + " "@ + name + " "@ + decimal(http_port as nat)
}

/// Builds the announcement datagram payload:
/// `skadoosh-mesh {name} {http_port}`.
pub fn build_announce(name: &str, http_port: u16) -> (r: String)
    ensures
        r@ == announcement(name@, http_port),
{
    MESH_ANNOUNCE_PREFIX.to_owned().concat(" ").concat(name).concat(" ").concat(
        decimal_string(http_port as u64).as_str(),
    )
}

/// The name and the port of an announcement: its second and third word,
/// behind the magic prefix. A line of more or fewer words is no announcement.
pub open spec fn announced(msg: Seq<char>) -> Option<(Seq<char>, u16)> {
    let parts = words(msg);
    if parts.len() == 3 && parts[0] == "skadoosh-mesh"@ {
        match unsigned(parts[2], u16::MAX as nat) {
            Some(port) => Some((parts[1], port as u16)),
            None => None,
        }
    } else {
        None
    }
}

/// An announcement by the text of its name.
pub open spec fn announce_view(r: Option<(String, u16)>) -> Option<(Seq<char>, u16)> {
    match r {
        Some((name, port)) => Some((name@, port)),
        None => None,
    }
}

/// Parses an announcement datagram into `(name, http_port)`. Returns `None`
/// for anything that is not a well-formed `skadoosh-mesh {name} {port}` line.
pub fn parse_announce(msg: &str) -> (r: Option<(String, u16)>)
    ensures
        announce_view(r) == announced(msg@),
{
    let parts = split_words(&chars_of(msg));
    let ghost f = |w: Vec<char>| w@;
    if parts.len() != 3 {
        return None;
    }
    assert(words(msg@)[0] == parts@[0]@);
    assert(words(msg@)[1] == parts@[1]@);
    assert(words(msg@)[2] == parts@[2]@);
    if !chars_eq(&parts[0], &chars_of(MESH_ANNOUNCE_PREFIX)) {
        return None;
    }
    match parse_unsigned(&parts[2], 65_535) {
        Some(port) => {
            let name = string_of(&parts[1], 0, parts[1].len());
            assert(name@ =~= parts@[1]@);
            Some((name, port as u16))
        },
        None => None,
    }
}

proof fn lemma_first_word(word: Seq<char>, rest: Seq<char>)
    requires
        word.len() > 0,
        forall|i: int| 0 <= i < word.len() ==> !crate::text::is_white(#[trigger] word[i]),
        rest.len() == 0 || crate::text::is_white(rest[0]),
    ensures
        words(word + rest) == seq![word] + words(rest),
{
    let s = word + rest;
    lemma_run_of(word, rest);
    assert(!crate::text::is_white(s[0])) by {
        assert(s[0] == word[0]);
    }
    assert(s.take(word.len() as int) =~= word);
    assert(s.skip(word.len() as int) =~= rest);
}

proof fn lemma_run_of(word: Seq<char>, rest: Seq<char>)
    requires
        forall|i: int| 0 <= i < word.len() ==> !crate::text::is_white(#[trigger] word[i]),
        rest.len() == 0 || crate::text::is_white(rest[0]),
    ensures
        crate::text::word_run(word + rest) == word.len(),
    decreases word.len(),
{
    let s = word + rest;
    if word.len() == 0 {
        assert(s =~= rest);
    } else {
        assert(s[0] == word[0]);
        let tail = word.drop_first();
        assert forall|i: int| 0 <= i < tail.len() implies !crate::text::is_white(
            #[trigger] tail[i],
        ) by {
            assert(tail[i] == word[i + 1]);
        }
        lemma_run_of(tail, rest);
        assert(s.subrange(1, s.len() as int) =~= tail + rest);
    }
}

proof fn lemma_space_then(rest: Seq<char>)
    ensures
        words(" "@ + rest) == words(rest),
{
    reveal_strlit(" ");
    let s = " "@ + rest;
    assert(s[0] == ' ');
    assert(s.subrange(1, s.len() as int) =~= rest);
}

/// What a node announces, its peers read back. Names are words: a name that is
/// empty or has white space in it does not survive.
pub proof fn law_announcements_round_trip(name: Seq<char>, http_port: u16)
    requires
        name.len() > 0,
        forall|i: int| 0 <= i < name.len() ==> !crate::text::is_white(#[trigger] name[i]),
    ensures
        announced(announcement(name, http_port)) == Some((name, http_port)),
{
    reveal_strlit("skadoosh-mesh");
    reveal_strlit(" ");
    let magic = "skadoosh-mesh"@;
    let port = decimal(http_port as nat);
    crate::text::law_decimal_round_trip(http_port as nat, u16::MAX as nat);
    assert(port[0] != '+') by {
        crate::text::lemma_decimal_digits(http_port as nat);
        assert(crate::text::is_digit_char(port[0]));
    }
    assert forall|i: int| 0 <= i < port.len() implies !crate::text::is_white(#[trigger] port[i]) by {
        crate::text::lemma_decimal_digits(http_port as nat);
        assert(crate::text::is_digit_char(port[i]));
    }
    let none = Seq::<char>::empty();
    assert(port.len() > 0) by {
        crate::text::lemma_decimal_digits(http_port as nat);
    }
    assert(port + none =~= port);
    lemma_first_word(port, none);
    assert(words(none) =~= Seq::empty());
    lemma_space_then(port);
    lemma_first_word(name, " "@ + port);
    lemma_space_then(name + (" "@ + port));
    assert forall|i: int| 0 <= i < magic.len() implies !crate::text::is_white(
        #[trigger] magic[i],
    ) by {}
    lemma_first_word(magic, " "@ + (name + (" "@ + port)));
    assert(announcement(name, http_port) =~= magic + (" "@ + (name + (" "@ + port))));
    let parts = words(announcement(name, http_port));
    assert(parts =~= seq![magic, name, port]);
}

// ---------------------------------------------------------------------------
// The peer table
// ---------------------------------------------------------------------------

/// A discovered peer: its agent name, HTTP endpoint (`host:port`), and when
/// it was last heard from.
#[derive(Debug, Clone)]
pub struct Peer {
    /// The peer's agent name (unique key in the table).
    pub name: String,
    /// HTTP endpoint as `host:port` (e.g. `192.168.1.5:9876`).
    pub http_endpoint: String,
    /// When this peer was last heard from; used for expiry.
    pub last_seen: u64,
}

/// A [`Peer`] by its texts.
#[verifier::ext_equal]
pub struct PeerView {
    /// The peer's agent name.
    pub name: Seq<char>,
    /// HTTP endpoint as `host:port`.
    pub http_endpoint: Seq<char>,
    /// When this peer was last heard from.
    pub last_seen: u64,
}

impl View for Peer {
    type V = PeerView;

    open spec fn view(&self) -> PeerView {
        PeerView {
            name: self.name@,
            http_endpoint: self.http_endpoint@,
            last_seen: self.last_seen,
        }
    }
}

/// Peers by their texts.
pub open spec fn peers_view(v: Seq<(Seq<char>, Peer)>) -> Seq<(Seq<char>, PeerView)> {
    mapped(v, |p: Peer| p@)
}

/// Whether the last word of a peer is no older than `ttl`; one that was heard
/// from at `now` or later has no age.
pub open spec fn is_fresh(p: PeerView, now: u64, ttl: u64) -> bool {
    now - p.last_seen <= ttl
}

/// The entries of the peers that have been heard from within `ttl`.
pub open spec fn pruned(v: Seq<(Seq<char>, PeerView)>, now: u64, ttl: u64) -> Seq<
    (Seq<char>, PeerView),
>
    decreases v.len(),
{
    if v.len() == 0 {
        Seq::empty()
    } else if is_fresh(v.last().1, now, ttl) {
        pruned(v.drop_last(), now, ttl).push(v.last())
    } else {
        pruned(v.drop_last(), now, ttl)
    }
}

/// The names of all entries.
pub open spec fn peer_names(v: Seq<(Seq<char>, PeerView)>) -> Seq<Seq<char>> {
    v.map_values(|e: (Seq<char>, PeerView)| e.0)
}

/// The registry of discovered peers, keyed by name.
#[derive(Debug)]
pub struct PeerTable {
    peers: SortedMap<Peer>,
}

impl View for PeerTable {
    type V = Seq<(Seq<char>, PeerView)>;

    closed spec fn view(&self) -> Seq<(Seq<char>, PeerView)> {
        peers_view(self.peers@)
    }
}

impl Default for PeerTable {
    fn default() -> (r: Self)
        ensures
            r.wf(),
            r@ == Seq::<(Seq<char>, PeerView)>::empty(),
    {
        PeerTable::new()
    }
}

impl PeerTable {
    /// The names are in order, each once.
    pub closed spec fn wf(&self) -> bool {
        in_order(self.peers@)
    }

    /// Creates an empty peer table.
    pub fn new() -> (r: Self)
        ensures
            r.wf(),
            r@ == Seq::<(Seq<char>, PeerView)>::empty(),
    {
        let r = PeerTable { peers: SortedMap::new() };
        assert(r@ =~= Seq::<(Seq<char>, PeerView)>::empty());
        r
    }

    /// Records (or refreshes) a peer: `name → http_endpoint`, stamped at
    /// `now`. Re-recording an existing name updates its endpoint and
    /// `last_seen`.
    pub fn record(&mut self, name: &str, http_endpoint: &str, now: u64)
        requires
            old(self).wf(),
        ensures
            final(self).wf(),
            final(self)@ == with(
                old(self)@,
                name@,
                PeerView { name: name@, http_endpoint: http_endpoint@, last_seen: now },
            ),
    {
        let peer = Peer {
            name: name.to_owned(),
            http_endpoint: http_endpoint.to_owned(),
            last_seen: now,
        };
        proof {
            lemma_mapped_with(self.peers@, name@, peer, |p: Peer| p@);
        }
        self.peers.insert(name.to_owned(), peer);
    }

    /// Looks up a peer by name, returning a clone of its HTTP endpoint.
    pub fn lookup(&self, name: &str) -> (r: Option<String>)
        ensures
            opt_str(r) == (match lookup(self@, name@) {
                Some(p) => Some(p.http_endpoint),
                None => None,
            }),
    {
        proof {
            lemma_mapped_lookup(self.peers@, name@, |p: Peer| p@);
        }
        match self.peers.get(name) {
            Some(p) => Some(p.http_endpoint.clone()),
            None => None,
        }
    }

    /// Removes peers whose `last_seen` is older than `ttl` relative to `now`.
    pub fn prune(&mut self, now: u64, ttl: u64)
        requires
            old(self).wf(),
        ensures
            final(self).wf(),
            final(self)@ == pruned(old(self)@, now, ttl),
    {
        let ghost all = self@;
        let mut i: usize = 0;
        let mut done: Ghost<int> = Ghost(0);
        assert(all =~= pruned(all.take(0), now, ttl) + all.skip(0));
        while i < self.peers.len()
            invariant
                self.wf(),
                0 <= done@ <= all.len(),
                i == pruned(all.take(done@), now, ttl).len(),
                self@ == pruned(all.take(done@), now, ttl) + all.skip(done@),
            decreases all.len() - done@,
        {
            let ghost kept = pruned(all.take(done@), now, ttl);
            let (_, p) = self.peers.entry(i);
            let seen: u64 = p.last_seen;
            let fresh: bool = now <= seen || now - seen <= ttl;
            proof {
                assert(self@[i as int] == all[done@]);
                assert(self.peers@[i as int].1 == *p);
                assert(all.take(done@ + 1).drop_last() =~= all.take(done@));
                assert(all.skip(done@) =~= seq![all[done@]] + all.skip(done@ + 1));
            }
            if fresh {
                proof {
                    assert(self@ =~= kept.push(all[done@]) + all.skip(done@ + 1));
                }
                i += 1;
            } else {
                let ghost before = self.peers@;
                self.peers.remove_at(i);
                proof {
                    assert(self@ =~= peers_view(before).remove(i as int));
                    assert(self@ =~= kept + all.skip(done@ + 1));
                }
            }
            proof {
                done@ = done@ + 1;
            }
        }
        proof {
            assert(self@.len() == i);
            assert(all.skip(done@).len() == 0);
            assert(all.take(done@) =~= all);
            assert(self@ =~= pruned(all, now, ttl));
        }
    }

    /// Returns a snapshot of all known peers.
    pub fn list(&self) -> (r: Vec<Peer>)
        ensures
            r@.len() == self@.len(),
            forall|i: int| 0 <= i < r@.len() ==> (#[trigger] r@[i])@ == self@[i].1,
    {
        let mut out: Vec<Peer> = Vec::new();
        let mut i: usize = 0;
        while i < self.peers.len()
            invariant
                i <= self@.len() == self.peers@.len(),
                out@.len() == i,
                forall|k: int| 0 <= k < i ==> (#[trigger] out@[k])@ == self@[k].1,
            decreases self@.len() - i,
        {
            let (_, p) = self.peers.entry(i);
            let copy = Peer {
                name: p.name.clone(),
                http_endpoint: p.http_endpoint.clone(),
                last_seen: p.last_seen,
            };
            assert(self.peers@[i as int].1 == *p);
            assert(copy@ =~= self@[i as int].1);
            out.push(copy);
            i += 1;
        }
        out
    }

    /// Returns the sorted list of known peer names.
    pub fn names(&self) -> (r: Vec<String>)
        ensures
            strs(r@) == peer_names(self@),
    {
        let ghost all = peer_names(self@);
        let mut out: Vec<String> = Vec::new();
        let mut i: usize = 0;
        assert(strs(out@) =~= all.take(0));
        while i < self.peers.len()
            invariant
                all == peer_names(self@),
                i <= self@.len() == self.peers@.len(),
                strs(out@) == all.take(i as int),
            decreases self@.len() - i,
        {
            let (name, _) = self.peers.entry(i);
            let ghost before = out@;
            out.push(name.clone());
            assert(strs(out@) =~= strs(before).push(name@));
            assert(all.take(i + 1) =~= all.take(i as int).push(all[i as int]));
            i += 1;
        }
        assert(all.take(all.len() as int) =~= all);
        out
    }

    /// Number of known peers.
    pub fn len(&self) -> (r: usize)
        ensures
            r == self@.len(),
    {
        self.peers.len()
    }

    /// Whether the table is empty.
    pub fn is_empty(&self) -> (r: bool)
        ensures
            r == (self@.len() == 0),
    {
        self.peers.len() == 0
    }
}

/// A peer that was recorded is found under its name, with its latest endpoint,
/// and other peers stay as they are.
pub proof fn law_recorded_peers_are_found(
    table: PeerTable,
    name: Seq<char>,
    peer: PeerView,
    other: Seq<char>,
)
    requires
        table.wf(),
    ensures
        lookup(with(table@, name, peer), name) == Some(peer),
        other != name ==> lookup(with(table@, name, peer), other) == lookup(table@, other),
{
    lemma_mapped_in_order(table.peers@, |p: Peer| p@);
    crate::sorted::law_inserted_values_are_found(table@, name, peer, other);
}

/// The names of a table come out sorted, each once.
pub proof fn law_names_are_sorted(table: PeerTable)
    requires
        table.wf(),
    ensures
        in_order(table@),
{
    lemma_mapped_in_order(table.peers@, |p: Peer| p@);
}

/// Pruning keeps exactly the peers that have been heard from.
pub proof fn law_pruning_keeps_the_fresh(
    v: Seq<(Seq<char>, PeerView)>,
    now: u64,
    ttl: u64,
    e: (Seq<char>, PeerView),
)
    ensures
        pruned(v, now, ttl).contains(e) == (v.contains(e) && is_fresh(e.1, now, ttl)),
    decreases v.len(),
{
    if v.len() > 0 {
        let below = v.drop_last();
        law_pruning_keeps_the_fresh(below, now, ttl, e);
        assert(v.contains(e) == (below.contains(e) || v.last() == e)) by {
            if below.contains(e) {
                let k = choose|k: int| 0 <= k < below.len() && below[k] == e;
                assert(v[k] == e);
            }
            if v.contains(e) {
                let k = choose|k: int| 0 <= k < v.len() && v[k] == e;
                if k < below.len() {
                    assert(below[k] == e);
                }
            }
            assert(v[v.len() - 1] == v.last());
        }
        let kept = pruned(below, now, ttl);
        if is_fresh(v.last().1, now, ttl) {
            let all = kept.push(v.last());
            assert(all.contains(e) == (kept.contains(e) || v.last() == e)) by {
                if kept.contains(e) {
                    let k = choose|k: int| 0 <= k < kept.len() && kept[k] == e;
                    assert(all[k] == e);
                }
                if all.contains(e) {
                    let k = choose|k: int| 0 <= k < all.len() && all[k] == e;
                    if k < kept.len() {
                        assert(kept[k] == e);
                    }
                }
                assert(all[kept.len() as int] == v.last());
            }
        }
    }
}

/// The table after a datagram from `src_ip`.
pub open spec fn heard(
    table: Seq<(Seq<char>, PeerView)>,
    msg: Seq<char>,
    src_ip: Seq<char>,
    self_name: Seq<char>,
    now: u64,
) -> Seq<(Seq<char>, PeerView)> {
    match announced(msg) {
        Some((name, port)) => if name != self_name {
            with(
                table,
                name,
                PeerView {
                    name,
                    http_endpoint: src_ip + ":"@ + decimal(port as nat),
                    last_seen: now,
                },
            )
        } else {
            table
        },
        None => table,
    }
}

/// Feeds one received datagram into the table — the pure core of the
/// discovery loop. A well-formed announce from a peer other than `self_name`
/// records `{name} → {src_ip}:{http_port}`; self-announces and malformed
/// lines are ignored.
pub fn handle_datagram(
    msg: &str,
    src_ip: &str,
    self_name: &str,
    table: &mut PeerTable,
    now: u64,
)
    requires
        old(table).wf(),
    ensures
        final(table).wf(),
        final(table)@ == heard(old(table)@, msg@, src_ip@, self_name@, now),
{
    if let Some((name, http_port)) = parse_announce(msg) {
        if !str_eq(name.as_str(), self_name) {
            let endpoint = src_ip.to_owned().concat(":").concat(
                decimal_string(http_port as u64).as_str(),
            );
            table.record(name.as_str(), endpoint.as_str(), now);
        }
    }
}

} // verus!
