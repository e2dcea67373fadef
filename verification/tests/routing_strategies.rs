use dtn7::bundle::{Bundle, BundlePack};
use dtn7::epidemic::EpidemicRoutingAgent;
use dtn7::erouting::{peer_state_snapshot, Packet, Sender, SenderForBundleResponse};
use dtn7::external::{timeout_result, ExternalRoutingAgent, DEFAULT_TIMEOUT_SECS};
use dtn7::flooding::FloodingRoutingAgent;
use dtn7::peer::{DtnPeer, PeerRegistry, PeerType};
use dtn7::routing::{notification_packet, routing_algorithms, RoutingAgentsEnum, RoutingNotifcation};
use dtn7::sink::SinkRoutingAgent;

fn pack(id: &str, dest: &str) -> BundlePack {
    BundlePack::from(Bundle::new(id.to_string(), dest.to_string(), false))
}

fn peer(addr: &str, eid: Option<&str>, clas: &[&str]) -> DtnPeer {
    DtnPeer::new(
        eid.map(|e| e.to_string()),
        addr.to_string(),
        PeerType::Dynamic,
        clas.iter().map(|c| c.to_string()).collect(),
    )
}

fn two_peer_registry() -> PeerRegistry {
    let mut reg = PeerRegistry::new();
    reg.upsert(peer("10.0.0.1", Some("dtn://n1"), &["mtcp"]));
    reg.upsert(peer("10.0.0.2", Some("dtn://n2"), &["http"]));
    reg
}

#[test]
fn flooding_returns_one_sender_per_advertising_peer() {
    let reg = two_peer_registry();
    let agent = FloodingRoutingAgent::new();
    let (senders, delete) = agent.sender_for_bundle(&pack("b1", "dtn://x/y"), &reg);
    assert_eq!(senders.len(), 2);
    assert!(!delete);
    assert_eq!(senders[0].remote, "10.0.0.1");
    assert_eq!(senders[0].agent, "mtcp");
    assert_eq!(senders[0].next_hop, "dtn://n1");
    assert_eq!(senders[1].remote, "10.0.0.2");
    assert_eq!(senders[1].agent, "http");
}

#[test]
fn flooding_skips_peers_without_agents() {
    let mut reg = two_peer_registry();
    reg.upsert(peer("10.0.0.3", Some("dtn://n3"), &[]));
    let agent = FloodingRoutingAgent::new();
    let (senders, _) = agent.sender_for_bundle(&pack("b1", "dtn://x/y"), &reg);
    assert_eq!(senders.len(), 2);
}

#[test]
fn flooding_with_no_peers_returns_nothing() {
    let reg = PeerRegistry::new();
    let agent = FloodingRoutingAgent::new();
    let (senders, delete) = agent.sender_for_bundle(&pack("b1", "dtn://x/y"), &reg);
    assert!(senders.is_empty());
    assert!(!delete);
}

#[test]
fn sink_always_returns_empty() {
    let reg = two_peer_registry();
    let agent = SinkRoutingAgent::new();
    let (senders, delete) = agent.sender_for_bundle(&pack("b1", "dtn://x/y"), &reg);
    assert!(senders.is_empty());
    assert!(!delete);
}

#[test]
fn epidemic_offers_each_peer_once_per_bundle() {
    let reg = two_peer_registry();
    let mut agent = EpidemicRoutingAgent::new();
    let (first, delete) = agent.sender_for_bundle(&pack("b1", "dtn://x/y"), &reg);
    assert_eq!(first.len(), 2);
    assert!(!delete);
    let (second, _) = agent.sender_for_bundle(&pack("b1", "dtn://x/y"), &reg);
    assert!(second.is_empty());
    let (other, _) = agent.sender_for_bundle(&pack("b2", "dtn://x/y"), &reg);
    assert_eq!(other.len(), 2);
}

#[test]
fn epidemic_skips_peer_known_to_hold_bundle() {
    let reg = two_peer_registry();
    let mut agent = EpidemicRoutingAgent::new();
    agent.note_peer_has(&"b1".to_string(), &"10.0.0.1".to_string());
    let (senders, _) = agent.sender_for_bundle(&pack("b1", "dtn://x/y"), &reg);
    assert_eq!(senders.len(), 1);
    assert_eq!(senders[0].remote, "10.0.0.2");
}

#[test]
fn routing_new_selects_each_strategy_by_name() {
    assert!(matches!(dtn7::routing::new("flooding"), Ok(RoutingAgentsEnum::FloodingRoutingAgent(_))));
    assert!(matches!(dtn7::routing::new("epidemic"), Ok(RoutingAgentsEnum::EpidemicRoutingAgent(_))));
    assert!(matches!(dtn7::routing::new("sink"), Ok(RoutingAgentsEnum::SinkRoutingAgent(_))));
    assert!(matches!(dtn7::routing::new("external"), Ok(RoutingAgentsEnum::ExternalRoutingAgent(_))));
}

#[test]
fn routing_new_rejects_unknown_name() {
    match dtn7::routing::new("spray") {
        Err(e) => assert_eq!(e.name, "spray"),
        Ok(_) => panic!("an unknown routing agent name must be rejected"),
    }
}

#[test]
fn routing_algorithms_lists_the_four_names() {
    assert_eq!(routing_algorithms(), vec!["epidemic", "flooding", "sink", "external"]);
}

#[test]
fn enum_dispatch_matches_strategy_behavior() {
    let reg = two_peer_registry();
    let mut flooding = dtn7::routing::new("flooding").ok().unwrap();
    let (senders, delete) = flooding.sender_for_bundle(&pack("b1", "dtn://x/y"), &reg);
    assert_eq!(senders.len(), 2);
    assert!(!delete);
    let mut sink = dtn7::routing::new("sink").ok().unwrap();
    let (senders, _) = sink.sender_for_bundle(&pack("b1", "dtn://x/y"), &reg);
    assert!(senders.is_empty());
    let mut external = dtn7::routing::new("external").ok().unwrap();
    let (senders, delete) = external.sender_for_bundle(&pack("b1", "dtn://x/y"), &reg);
    assert!(senders.is_empty());
    assert!(!delete);
}

#[test]
fn notify_forwards_packets_only_for_external() {
    let n = RoutingNotifcation::SendingFailed("b1".to_string(), "mtcp".to_string());
    let mut flooding = dtn7::routing::new("flooding").ok().unwrap();
    assert!(flooding.notify(&n).is_none());
    let mut external = dtn7::routing::new("external").ok().unwrap();
    match external.notify(&n) {
        Some(Packet::SendingFailed(sf)) => {
            assert_eq!(sf.bid, "b1");
            assert_eq!(sf.cla_sender, "mtcp");
        }
        _ => panic!("the external strategy must forward the event as a packet"),
    }
}

#[test]
fn notification_packets_mirror_events() {
    let p = peer("10.0.0.5", Some("dtn://n5"), &["mtcp"]);
    match notification_packet(&RoutingNotifcation::EncounteredPeer("dtn://n5".to_string(), p)) {
        Packet::EncounteredPeer(ep) => {
            assert_eq!(ep.name, "dtn://n5");
            assert_eq!(ep.eid, "dtn://n5");
            assert_eq!(ep.peer.addr, "10.0.0.5");
        }
        _ => panic!("wrong packet kind"),
    }
    match notification_packet(&RoutingNotifcation::DroppedPeer("dtn://n5".to_string())) {
        Packet::DroppedPeer(dp) => assert_eq!(dp.eid, "dtn://n5"),
        _ => panic!("wrong packet kind"),
    }
    match notification_packet(&RoutingNotifcation::IncomingBundleWithoutPreviousNode(
        "b9".to_string(),
        "node7".to_string(),
    )) {
        Packet::IncomingBundleWithoutPreviousNode(ib) => {
            assert_eq!(ib.bid, "b9");
            assert_eq!(ib.node_name, "node7");
        }
        _ => panic!("wrong packet kind"),
    }
}

fn response(id: &str, senders: Vec<Sender>, delete: bool) -> SenderForBundleResponse {
    SenderForBundleResponse {
        bp: pack(id, "dtn://x/y"),
        clas: senders,
        delete_afterwards: delete,
    }
}

#[test]
fn external_response_resolves_only_matching_bundle_id() {
    let mut agent = ExternalRoutingAgent::new();
    agent.connect();
    let clas = vec!["mtcp".to_string()];
    let sent = agent.start_request(&pack("B1", "dtn://x/y"), &clas, 100);
    match sent {
        Some(Packet::RequestSenderForBundle(req)) => {
            assert_eq!(req.bp.id(), "B1");
            assert_eq!(req.clas, clas);
        }
        _ => panic!("a fresh request must produce an outbound packet"),
    }
    assert!(agent.has_request_for(&"B1".to_string()));
    assert!(agent.handle_response(response("B7", Vec::new(), false)).is_none());
    assert!(agent.has_request_for(&"B1".to_string()));
    let sender = Sender {
        remote: "10.0.0.1".to_string(),
        port: Some(4556),
        agent: "mtcp".to_string(),
        next_hop: "dtn://n1".to_string(),
    };
    match agent.handle_response(response("B1", vec![sender], true)) {
        Some((senders, delete)) => {
            assert_eq!(senders.len(), 1);
            assert_eq!(senders[0].remote, "10.0.0.1");
            assert!(delete);
        }
        None => panic!("a matching response must resolve the request"),
    }
    assert!(!agent.has_request_for(&"B1".to_string()));
}

#[test]
fn external_duplicate_request_is_rejected() {
    let mut agent = ExternalRoutingAgent::new();
    agent.connect();
    let clas = vec!["mtcp".to_string()];
    assert!(agent.start_request(&pack("B1", "dtn://x/y"), &clas, 100).is_some());
    assert!(agent.start_request(&pack("B1", "dtn://x/y"), &clas, 101).is_none());
}

#[test]
fn external_request_needs_connection() {
    let mut agent = ExternalRoutingAgent::new();
    let clas = vec!["mtcp".to_string()];
    assert!(agent.start_request(&pack("B1", "dtn://x/y"), &clas, 100).is_none());
    assert!(!agent.has_request_for(&"B1".to_string()));
}

#[test]
fn external_timeout_emits_packet_with_original_pack() {
    let mut agent = ExternalRoutingAgent::new();
    agent.connect();
    let clas = vec!["mtcp".to_string()];
    agent.start_request(&pack("B1", "dtn://x/y"), &clas, 100);
    let before = agent.sweep_timeouts(100 + DEFAULT_TIMEOUT_SECS - 1);
    assert!(before.is_empty());
    assert!(agent.has_request_for(&"B1".to_string()));
    let fired = agent.sweep_timeouts(100 + DEFAULT_TIMEOUT_SECS);
    assert_eq!(fired.len(), 1);
    assert_eq!(fired[0].bp.id(), "B1");
    assert!(!agent.has_request_for(&"B1".to_string()));
    let (senders, delete) = timeout_result(&fired[0]);
    assert!(senders.is_empty());
    assert!(!delete);
}

#[test]
fn external_connection_close_times_out_everything() {
    let mut agent = ExternalRoutingAgent::new();
    agent.connect();
    let clas = vec!["mtcp".to_string()];
    agent.start_request(&pack("B1", "dtn://x/y"), &clas, 100);
    agent.start_request(&pack("B2", "dtn://x/y"), &clas, 100);
    let aborted = agent.connection_closed();
    assert_eq!(aborted.len(), 2);
    assert_eq!(aborted[0].bp.id(), "B1");
    assert_eq!(aborted[1].bp.id(), "B2");
    assert!(!agent.has_request_for(&"B1".to_string()));
    let (senders, delete) = agent.sender_for_bundle(&pack("B3", "dtn://x/y"));
    assert!(senders.is_empty());
    assert!(!delete);
}

#[test]
fn external_handle_packet_ignores_non_responses() {
    let mut agent = ExternalRoutingAgent::new();
    agent.connect();
    let clas = vec!["mtcp".to_string()];
    agent.start_request(&pack("B1", "dtn://x/y"), &clas, 100);
    let stray = Packet::Timeout(dtn7::erouting::Timeout { bp: pack("B1", "dtn://x/y") });
    assert!(agent.handle_packet(stray).is_none());
    assert!(agent.has_request_for(&"B1".to_string()));
}

#[test]
fn service_snapshot_and_incremental_registration() {
    let services = vec![(7u8, "echo".to_string()), (42u8, "ping".to_string())];
    let snapshot = dtn7::erouting::service_state_snapshot(&services);
    assert_eq!(snapshot.service_list, services);
    match dtn7::erouting::add_service_packet(9, "time".to_string()) {
        Packet::ServiceAdd(a) => {
            assert_eq!(a.tag, 9);
            assert_eq!(a.service, "time");
        }
        _ => panic!("wrong packet kind"),
    }
}

#[test]
fn encountered_then_dropped_peer_leaves_no_snapshot_entry() {
    let mut reg = PeerRegistry::new();
    reg.upsert(peer("10.0.0.1", Some("dtn://n1"), &["mtcp"]));
    reg.upsert(peer("10.0.0.2", Some("dtn://n2"), &["mtcp"]));
    reg.remove_by_eid(&"dtn://n1".to_string());
    let snapshot = peer_state_snapshot(reg.iter());
    assert_eq!(snapshot.peers.len(), 1);
    for (name, entry) in &snapshot.peers {
        assert_ne!(name, "10.0.0.1");
        assert_ne!(entry.eid, Some("dtn://n1".to_string()));
    }
}
