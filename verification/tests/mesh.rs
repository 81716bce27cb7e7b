//! The peer mesh: announcements, peers and forwarded calls.

use skadoosh::mesh::http::{find, handle_http, HttpRequest, HttpStep};
use skadoosh::mesh::node::{
    forward_result, Bound, DiscoveryEvent, DiscoveryStep, MeshNode, MeshReply,
};
use skadoosh::mesh::{
    build_announce, handle_datagram, parse_announce, PeerTable, ANNOUNCE_INTERVAL,
    DEFAULT_MESH_PORT, PEER_TTL,
};

#[test]
fn announcements_round_trip() {
    let msg = build_announce("alice", 9876);
    assert_eq!(parse_announce(&msg), Some(("alice".to_string(), 9876)));
    assert_eq!(parse_announce("skadoosh-mesh"), None);
    assert_eq!(parse_announce("other-mesh alice 9876"), None);
    assert_eq!(parse_announce("skadoosh-mesh alice 99999"), None);
    assert_eq!(parse_announce(""), None);
    assert_eq!(parse_announce("skadoosh-mesh alice 9876 extra"), None);
}

#[test]
fn peers_are_recorded_and_expire() {
    let mut t = PeerTable::new();
    assert!(t.is_empty());
    t.record("bob", "1.2.3.4:1", 0);
    t.record("alice", "1.2.3.5:2", 10);
    t.record("bob", "1.2.3.4:3", 20);
    assert_eq!(t.len(), 2);
    assert_eq!(t.lookup("bob"), Some("1.2.3.4:3".to_string()));
    assert_eq!(t.lookup("eve"), None);
    assert_eq!(t.names(), vec!["alice", "bob"]);
    assert_eq!(t.list()[0].last_seen, 10);
    // A peer as old as the ttl is not older.
    t.prune(10 + PEER_TTL, PEER_TTL);
    assert_eq!(t.names(), vec!["alice", "bob"]);
    t.prune(10 + PEER_TTL + 1, PEER_TTL);
    assert_eq!(t.names(), vec!["bob"]);
}

#[test]
fn datagrams_feed_the_table() {
    let mut t = PeerTable::new();
    let msg = build_announce("bob", 80);
    handle_datagram(&msg, "10.0.0.1", "alice", &mut t, 5);
    handle_datagram(&build_announce("alice", 80), "10.0.0.2", "alice", &mut t, 5);
    handle_datagram("junk", "10.0.0.3", "alice", &mut t, 5);
    assert_eq!(t.names(), vec!["bob"]);
    assert_eq!(t.lookup("bob"), Some("10.0.0.1:80".to_string()));
}

fn node() -> MeshNode {
    MeshNode::start(
        "alice",
        DEFAULT_MESH_PORT,
        &Bound::At("0.0.0.0:9876".to_string(), 9876),
        &Bound::At("0.0.0.0:9876".to_string(), 9876),
        0,
    )
}

#[test]
fn nodes_announce_and_listen() {
    let mut n = node();
    assert_eq!(n.name(), "alice");
    assert_eq!(n.http_port(), 9876);
    assert_eq!(n.http_addr(), Some("0.0.0.0:9876".to_string()));
    assert!(n.udp_addr().is_some());
    assert_eq!(n.broadcast_addr(), "255.255.255.255:9876");
    let heard = DiscoveryEvent::Datagram(build_announce("bob", 80).into_bytes(), "1.1.1.1".to_string());
    n.discover(&heard, 1);
    assert_eq!(n.peer_table().names(), vec!["bob"]);
    assert!(n.forward_to_peer("bob").unwrap().contains("1.1.1.1:80"));
    assert!(n.forward_to_peer("eve").is_err());
    assert!(matches!(
        n.discover(&DiscoveryEvent::Nothing, ANNOUNCE_INTERVAL + 1),
        DiscoveryStep::Announce
    ));
    assert!(matches!(
        n.discover(&DiscoveryEvent::Shutdown, 2),
        DiscoveryStep::Exit
    ));
}

#[test]
fn forwarded_calls_report_their_outcome() {
    let ok = MeshReply::Replied {
        success: true,
        status: "200 OK".to_string(),
        text: "hi".to_string(),
    };
    assert_eq!(forward_result("bob", &ok).unwrap(), "hi");
    let no = MeshReply::Replied {
        success: false,
        status: "500".to_string(),
        text: "why".to_string(),
    };
    assert!(forward_result("bob", &no).is_err());
    let down = MeshReply::NotSent("down".to_string());
    assert_eq!(
        forward_result("bob", &down).unwrap_err().message(),
        "mesh forward request: down"
    );
    let none = MeshReply::NoClient("x".to_string());
    assert_eq!(
        forward_result("bob", &none).unwrap_err().message(),
        "mesh HTTP client: x"
    );
    let cut = MeshReply::NotRead("x".to_string());
    assert_eq!(
        forward_result("bob", &cut).unwrap_err().message(),
        "mesh forward response: x"
    );
}

fn answer(request: &[u8]) -> (String, String) {
    let mut r = HttpRequest::new();
    assert!(matches!(r.feed(request), HttpStep::Respond));
    let a = handle_http(&r, "alice", &vec!["bob".to_string(), "e\"e".to_string()]);
    (a.status.to_string(), a.text())
}

#[test]
fn requests_are_answered() {
    let body = r#"{"summary":"help"}"#;
    let post = format!(
        "POST /forward HTTP/1.1\r\nContent-Length: {}\r\n\r\n{body}",
        body.len()
    );
    let (status, text) = answer(post.as_bytes());
    assert_eq!(status, "200 OK");
    assert!(text.ends_with("[forwarded to alice] help"));
    let (_, text) = answer(b"GET /peers HTTP/1.1\r\n\r\n");
    assert!(text.ends_with(r#"["bob","e\"e"]"#));
    let (status, text) = answer(b"GET / HTTP/1.1\r\n\r\n");
    assert_eq!(status, "404 Not Found");
    assert!(text.contains("content-length: 9\r\n"));
}

#[test]
fn requests_arrive_in_pieces() {
    let mut r = HttpRequest::new();
    assert!(matches!(r.feed(b"POST /forward HTTP/1.1\r\nContent-"), HttpStep::Read));
    assert!(matches!(r.feed(b"Length: 4\r\n\r\nab"), HttpStep::Read));
    assert!(matches!(r.feed(b"cd"), HttpStep::Respond));
    assert_eq!(r.body(), b"abcd");
    assert_eq!(r.path(), "/forward");
    assert_eq!(find(b"abcabc", &b"ca".to_vec()), Some(2));
    assert_eq!(find(b"abc", &b"x".to_vec()), None);
}
