//! One node in the mesh: what it knows of itself and of its peers, when it
//! announces itself, and how it forwards a call.

use vstd::prelude::*;

use crate::bytes::decode_strict;
use crate::error::SkadooshError;
use crate::sorted::{in_order, law_names_are_ordered, lookup, precedes, with};
use crate::text::{decimal, decimal_string, prefix, take_chars};

use super::{
    announcement, handle_datagram, heard, pruned, PeerTable, PeerView, ANNOUNCE_INTERVAL, PEER_TTL,
};

verus! {

/// What became of binding a socket.
#[derive(Debug)]
pub enum Bound {
    /// It failed.
    Failed,
    /// It is bound, to an address that cannot be told.
    Somewhere,
    /// It is bound to an address with a port.
    At(String, u16),
}

/// The address of a bound socket.
pub open spec fn bound_addr(b: Bound) -> Option<Seq<char>> {
    match b {
        Bound::At(addr, _) => Some(addr@),
        _ => None,
    }
}

/// The port of a socket that was to be bound to `port`.
pub open spec fn bound_port(b: Bound, port: u16) -> u16 {
    match b {
        Bound::At(_, p) => p,
        _ => port,
    }
}

/// What to do next in the discovery loop.
#[derive(Debug, Clone, Copy, PartialEq, Eq, Structural)]
pub enum DiscoveryStep {
    /// Wait for the next datagram.
    Listen,
    /// Broadcast the announcement, then wait for the next datagram.
    Announce,
    /// Leave the loop.
    Exit,
}

/// What the discovery loop got.
#[derive(Debug)]
pub enum DiscoveryEvent {
    /// A datagram, with the address of its sender.
    Datagram(Vec<u8>, String),
    /// Nothing within the poll interval.
    Nothing,
    /// An error.
    Failed,
    /// The node shuts down.
    Shutdown,
}

/// The state of a [`MeshNode`].
#[verifier::ext_equal]
pub struct NodeView {
    /// The agent name.
    pub name: Seq<char>,
    /// The port of the HTTP server.
    pub http_port: u16,
    /// The address of the HTTP server, if it is bound.
    pub http_addr: Option<Seq<char>>,
    /// The address of the discovery socket, if it is bound.
    pub udp_addr: Option<Seq<char>>,
    /// The port of the discovery socket.
    pub udp_port: u16,
    /// The peers.
    pub peers: Seq<(Seq<char>, PeerView)>,
    /// When the node last announced itself.
    pub last_announce: u64,
}

/// The text of a datagram; none where it is no UTF-8.
pub open spec fn datagram_text(bytes: Seq<u8>) -> Seq<char> {
    if vstd::utf8::valid_utf8(bytes) {
        vstd::utf8::decode_utf8(bytes)
    } else {
        Seq::empty()
    }
}

/// Whether an announcement is due.
pub open spec fn is_due(last: u64, now: u64) -> bool {
    now >= last && now - last >= ANNOUNCE_INTERVAL
}

/// A pass of the discovery loop: a datagram is recorded, and when an
/// announcement is due, peers not heard from are pruned with it.
pub open spec fn discovered(v: NodeView, event: DiscoveryEvent, now: u64) -> (
    NodeView,
    DiscoveryStep,
) {
    match event {
        DiscoveryEvent::Shutdown => (v, DiscoveryStep::Exit),
        DiscoveryEvent::Failed => (v, DiscoveryStep::Exit),
        _ => {
            let peers = match event {
                DiscoveryEvent::Datagram(bytes, src_ip) => heard(
                    v.peers,
                    datagram_text(bytes@),
                    src_ip@,
                    v.name,
                    now,
                ),
                _ => v.peers,
            };
            if is_due(v.last_announce, now) {
                (
                    NodeView { peers: pruned(peers, now, PEER_TTL), last_announce: now, ..v },
                    DiscoveryStep::Announce,
                )
            } else {
                (NodeView { peers, ..v }, DiscoveryStep::Listen)
            }
        },
    }
}

/// What became of a forwarded call.
#[derive(Debug)]
pub enum MeshReply {
    /// There is no HTTP client, for this reason.
    NoClient(String),
    /// The request failed, for this reason.
    NotSent(String),
    /// The reply could not be read, for this reason.
    NotRead(String),
    /// The peer replied with a status and a text.
    Replied {
        /// Whether the status says success.
        success: bool,
        /// The status in words.
        status: String,
        /// The text.
        text: String,
    },
}

/// What a forwarded call gives.
pub open spec fn relayed(target: Seq<char>, reply: MeshReply) -> Result<Seq<char>, Seq<char>> {
    match reply {
        MeshReply::NoClient(e) => Err("mesh HTTP client: "@ + e@),
        MeshReply::NotSent(e) => Err("mesh forward request: "@ + e@),
        MeshReply::NotRead(e) => Err("mesh forward response: "@ + e@),
        MeshReply::Replied { success, status, text } => if success {
            Ok(text@)
        } else {
            Err(
                "mesh peer "@ + target + " returned "@ + status@ + ": "@ + prefix(text@, 1024),
            )
        },
    }
}

/// One node in the mesh.
#[derive(Debug)]
pub struct MeshNode {
    name: String,
    http_port: u16,
    http_addr: Option<String>,
    udp_addr: Option<String>,
    udp_port: u16,
    peers: PeerTable,
    last_announce: u64,
}

impl View for MeshNode {
    type V = NodeView;

    closed spec fn view(&self) -> NodeView {
        NodeView {
            name: self.name@,
            http_port: self.http_port,
            http_addr: crate::json::opt_str(self.http_addr),
            udp_addr: crate::json::opt_str(self.udp_addr),
            udp_port: self.udp_port,
            peers: self.peers@,
            last_announce: self.last_announce,
        }
    }
}

fn addr_of(b: &Bound) -> (r: Option<String>)
    ensures
        crate::json::opt_str(r) == bound_addr(*b),
{
    match b {
        Bound::At(addr, _) => Some(addr.clone()),
        _ => None,
    }
}

fn port_of(b: &Bound, port: u16) -> (r: u16)
    ensures
        r == bound_port(*b, port),
{
    match b {
        Bound::At(_, p) => *p,
        _ => port,
    }
}

impl MeshNode {
    /// The peer table is well formed.
    pub closed spec fn wf(&self) -> bool {
        self.peers.wf()
    }

    /// Starts a mesh node named `name` at `now`, whose HTTP server and UDP
    /// discovery socket were to be bound to `port` (`0` for an OS-assigned
    /// port). Binding failures degrade gracefully: the node is returned with
    /// the failing service disabled.
    pub fn start(name: &str, port: u16, http: &Bound, udp: &Bound, now: u64) -> (r: MeshNode)
        ensures
            r.wf(),
            r@ == (NodeView {
                name: name@,
                http_port: bound_port(*http, port),
                http_addr: bound_addr(*http),
                udp_addr: bound_addr(*udp),
                udp_port: bound_port(*udp, port),
                peers: Seq::empty(),
                last_announce: now,
            }),
    {
        MeshNode {
            name: name.to_owned(),
            http_port: port_of(http, port),
            http_addr: addr_of(http),
            udp_addr: addr_of(udp),
            udp_port: port_of(udp, port),
            peers: PeerTable::new(),
            last_announce: now,
        }
    }

    /// This node's agent name.
    pub fn name(&self) -> (r: &str)
        ensures
            r@ == self@.name,
    {
        self.name.as_str()
    }

    /// The actual HTTP port the server bound (equals `mesh_port` unless `0`
    /// was requested, in which case it is OS-assigned).
    pub fn http_port(&self) -> (r: u16)
        ensures
            r == self@.http_port,
    {
        self.http_port
    }

    /// The address the HTTP server is listening on, if it bound successfully.
    pub fn http_addr(&self) -> (r: Option<String>)
        ensures
            crate::json::opt_str(r) == self@.http_addr,
    {
        match &self.http_addr {
            Some(a) => Some(a.clone()),
            None => None,
        }
    }

    /// The address the UDP discovery socket is bound to, if it bound
    /// successfully.
    pub fn udp_addr(&self) -> (r: Option<String>)
        ensures
            crate::json::opt_str(r) == self@.udp_addr,
    {
        match &self.udp_addr {
            Some(a) => Some(a.clone()),
            None => None,
        }
    }

    /// The peer table.
    pub fn peer_table(&self) -> (r: &PeerTable)
        ensures
            r@ == self@.peers,
            self.wf() ==> r.wf(),
    {
        &self.peers
    }

    /// Where announcements go: the LAN broadcast address, at the discovery
    /// port.
    pub fn broadcast_addr(&self) -> (r: String)
        ensures
            r@ == "255.255.255.255:"@ + decimal(self@.udp_port as nat),
    {
        "255.255.255.255:".to_owned().concat(decimal_string(self.udp_port as u64).as_str())
    }

    /// One pass of the discovery loop: records peer announcements, and says
    /// when to rebroadcast this node's own, every [`ANNOUNCE_INTERVAL`],
    /// pruning stale peers as it goes.
    pub fn discover(&mut self, event: &DiscoveryEvent, now: u64) -> (r: DiscoveryStep)
        requires
            old(self).wf(),
        ensures
            final(self).wf(),
            (final(self)@, r) == discovered(old(self)@, *event, now),
    {
        match event {
            DiscoveryEvent::Shutdown => {
                return DiscoveryStep::Exit;
            },
            DiscoveryEvent::Failed => {
                return DiscoveryStep::Exit;
            },
            DiscoveryEvent::Datagram(bytes, src_ip) => {
                let msg = match decode_strict(bytes.as_slice()).ok() {
                    Some(s) => s,
                    None => String::new(),
                };
                assert(msg@ =~= datagram_text(bytes@));
                handle_datagram(
                    msg.as_str(),
                    src_ip.as_str(),
                    self.name.as_str(),
                    &mut self.peers,
                    now,
                );
            },
            DiscoveryEvent::Nothing => {},
        }
        if now >= self.last_announce && now - self.last_announce >= ANNOUNCE_INTERVAL {
            self.last_announce = now;
            self.peers.prune(now, PEER_TTL);
            DiscoveryStep::Announce
        } else {
            DiscoveryStep::Listen
        }
    }

    /// Where a call for the mesh peer named `target` is POSTed to, or an error
    /// if the peer is unknown.
    pub fn forward_to_peer(&self, target: &str) -> (r: Result<String, SkadooshError>)
        ensures
            match lookup(self@.peers, target@) {
                Some(p) => r matches Ok(url) && url@ == "http://"@ + p.http_endpoint
                    + "/forward"@,
                None => r matches Err(e) && e.text() == "mesh peer not found: "@ + target@,
            },
    {
        match self.peers.lookup(target) {
            Some(endpoint) => Ok(
                "http://".to_owned().concat(endpoint.as_str()).concat("/forward"),
            ),
            None => Err(SkadooshError::Other("mesh peer not found: ".to_owned().concat(target))),
        }
    }
}

/// What a call that was forwarded to `target` gives: the peer's text reply, or
/// an error.
pub fn forward_result(target: &str, reply: &MeshReply) -> (r: Result<String, SkadooshError>)
    ensures
        match relayed(target@, *reply) {
            Ok(text) => r matches Ok(s) && s@ == text,
            Err(m) => r matches Err(e) && e.text() == m,
        },
{
    match reply {
        MeshReply::NoClient(e) => Err(
            SkadooshError::Other("mesh HTTP client: ".to_owned().concat(e.as_str())),
        ),
        MeshReply::NotSent(e) => Err(
            SkadooshError::Other("mesh forward request: ".to_owned().concat(e.as_str())),
        ),
        MeshReply::NotRead(e) => Err(
            SkadooshError::Other("mesh forward response: ".to_owned().concat(e.as_str())),
        ),
        MeshReply::Replied { success, status, text } => {
            if *success {
                Ok(text.clone())
            } else {
                Err(
                    SkadooshError::Other(
                        "mesh peer ".to_owned().concat(target).concat(" returned ").concat(
                            status.as_str(),
                        ).concat(": ").concat(take_chars(text.as_str(), 1024).as_str()),
                    ),
                )
            }
        },
    }
}

proof fn lemma_fresh_are_found(
    v: Seq<(Seq<char>, PeerView)>,
    now: u64,
    ttl: u64,
    name: Seq<char>,
)
    ensures
        lookup(v, name) matches Some(p) && now - p.last_seen <= ttl ==> lookup(
            pruned(v, now, ttl),
            name,
        ) == lookup(v, name),
        lookup(v, name) is None ==> lookup(pruned(v, now, ttl), name) is None,
    decreases v.len(),
{
    if v.len() > 0 {
        let below = v.drop_last();
        lemma_fresh_are_found(below, now, ttl, name);
        let kept = pruned(below, now, ttl);
        assert(kept.push(v.last()).drop_last() =~= kept);
        assert(kept.push(v.last()).last() == v.last());
    }
}

proof fn lemma_stale_are_lost(
    v: Seq<(Seq<char>, PeerView)>,
    now: u64,
    ttl: u64,
    name: Seq<char>,
)
    requires
        in_order(v),
        lookup(v, name) matches Some(p) && now - p.last_seen > ttl,
    ensures
        lookup(pruned(v, now, ttl), name) is None,
    decreases v.len(),
{
    if v.len() > 0 {
        let below = v.drop_last();
        assert(in_order(below)) by {
            assert forall|i: int, j: int| 0 <= i < j < below.len() implies precedes(
                (#[trigger] below[i]).0,
                (#[trigger] below[j]).0,
            ) by {
                assert(below[i] == v[i] && below[j] == v[j]);
            }
        }
        let kept = pruned(below, now, ttl);
        assert(kept.push(v.last()).drop_last() =~= kept);
        assert(kept.push(v.last()).last() == v.last());
        if v.last().0 == name {
            lemma_name_is_last(v);
            lemma_fresh_are_found(below, now, ttl, name);
        } else {
            lemma_stale_are_lost(below, now, ttl, name);
        }
    }
}

proof fn lemma_name_is_last(v: Seq<(Seq<char>, PeerView)>)
    requires
        in_order(v),
        v.len() > 0,
    ensures
        lookup(v.drop_last(), v.last().0) is None,
{
    let below = v.drop_last();
    let name = v.last().0;
    lemma_some_entry(below, name);
    if lookup(below, name) is Some {
        let k = choose|k: int| 0 <= k < below.len() && (#[trigger] below[k]).0 == name;
        assert(v[k] == below[k]);
        assert(precedes(v[k].0, v[v.len() - 1].0));
        law_names_are_ordered(name, name);
    }
}

proof fn lemma_some_entry(v: Seq<(Seq<char>, PeerView)>, name: Seq<char>)
    ensures
        lookup(v, name) is Some ==> exists|k: int|
            0 <= k < v.len() && (#[trigger] v[k]).0 == name,
    decreases v.len(),
{
    if v.len() > 0 {
        lemma_some_entry(v.drop_last(), name);
        if v.last().0 == name {
            assert(v[v.len() - 1].0 == name);
        } else if lookup(v, name) is Some {
            let k = choose|k: int|
                0 <= k < v.drop_last().len() && (#[trigger] v.drop_last()[k]).0 == name;
            assert(v[k].0 == name);
        }
    }
}

/// A peer that announces itself can be reached: whatever a node knew before,
/// the announcement of another name leaves that name with the address that the
/// datagram came from and the announced port, also where the table is pruned
/// in the same pass. A node's own announcement changes no entry.
pub proof fn law_announced_peers_are_reached(
    node: MeshNode,
    bytes: Vec<u8>,
    src_ip: String,
    name: Seq<char>,
    port: u16,
    now: u64,
)
    requires
        node.wf(),
        name.len() > 0,
        forall|i: int| 0 <= i < name.len() ==> !crate::text::is_white(#[trigger] name[i]),
        vstd::utf8::valid_utf8(bytes@),
        vstd::utf8::decode_utf8(bytes@) == announcement(name, port),
    ensures
        ({
            let after = discovered(node@, DiscoveryEvent::Datagram(bytes, src_ip), now).0;
            if name != node@.name {
                lookup(after.peers, name) matches Some(p) && p.http_endpoint == src_ip@ + ":"@
                    + decimal(port as nat)
            } else {
                after.peers == discovered(node@, DiscoveryEvent::Nothing, now).0.peers
            }
        }),
{
    super::law_announcements_round_trip(name, port);
    if name != node@.name {
        let peer = PeerView {
            name,
            http_endpoint: src_ip@ + ":"@ + decimal(port as nat),
            last_seen: now,
        };
        super::law_recorded_peers_are_found(node.peers, name, peer, name);
        lemma_fresh_are_found(with(node@.peers, name, peer), now, PEER_TTL, name);
    }
}

/// Ten seconds behind its last announcement, and no sooner, a node announces
/// itself again. Then it forgets every peer that it has not heard from for
/// more than thirty seconds; the others stay as they are.
pub proof fn law_silent_peers_are_forgotten(node: MeshNode, now: u64, name: Seq<char>)
    requires
        node.wf(),
    ensures
        ({
            let (after, step) = discovered(node@, DiscoveryEvent::Nothing, now);
            if now - node@.last_announce >= 10_000_000_000 {
                &&& step == DiscoveryStep::Announce
                &&& after.last_announce == now
                &&& lookup(after.peers, name) == (match lookup(node@.peers, name) {
                    Some(p) => if now - p.last_seen > 30_000_000_000 {
                        None
                    } else {
                        Some(p)
                    },
                    None => None,
                })
            } else {
                step == DiscoveryStep::Listen && after == node@
            }
        }),
{
    super::law_names_are_sorted(node.peers);
    lemma_fresh_are_found(node@.peers, now, PEER_TTL, name);
    if lookup(node@.peers, name) is Some && now - (lookup(node@.peers, name)->0).last_seen
        > PEER_TTL {
        lemma_stale_are_lost(node@.peers, now, PEER_TTL, name);
    }
}

/// A peer's reply comes back whole where its status says success, and nothing
/// else counts as one; of any other reply the error names the peer.
pub proof fn law_replies_come_back(target: Seq<char>, reply: MeshReply)
    ensures
        relayed(target, reply) is Ok <==> reply is Replied && reply->success,
        reply is Replied && reply->success ==> relayed(target, reply) == Ok::<Seq<char>, Seq<char>>(
            reply->text@,
        ),
        reply is Replied && !reply->success ==> crate::text::contains(
            relayed(target, reply)->Err_0,
            target,
        ),
{
    reveal_strlit("mesh peer ");
    if reply is Replied && !reply->success {
        let e = relayed(target, reply)->Err_0;
        assert(e.subrange(10, 10 + target.len() as int) =~= target);
        assert(crate::text::matches_at(e, target, 10));
    }
}

} // verus!
