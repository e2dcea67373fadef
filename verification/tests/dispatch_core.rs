use dtn7::agent::SimpleApplicationAgent;
use dtn7::bundle::{Bundle, BundlePack};
use dtn7::dispatch::DtnCore;
use dtn7::peer::{DtnPeer, PeerRegistry, PeerType};
use dtn7::store::SimpleBundleStore;

fn bundle(id: &str, dest: &str) -> Bundle {
    Bundle::new(id.to_string(), dest.to_string(), false)
}

fn peer(addr: &str, eid: Option<&str>, clas: &[&str]) -> DtnPeer {
    DtnPeer::new(
        eid.map(|e| e.to_string()),
        addr.to_string(),
        PeerType::Dynamic,
        clas.iter().map(|c| c.to_string()).collect(),
    )
}

#[test]
fn push_same_bundle_twice_counts_one_duplicate() {
    let mut core = DtnCore::new("node1".to_string());
    core.push(bundle("b1", "dtn://far/away"));
    core.push(bundle("b1", "dtn://far/away"));
    assert_eq!(core.stats.incoming, 2);
    assert_eq!(core.stats.dups, 1);
    let ids = core.bundles();
    assert_eq!(ids, vec!["b1".to_string()]);
}

#[test]
fn local_delivery_skips_store() {
    let mut core = DtnCore::new("node1".to_string());
    core.register_application_agent(SimpleApplicationAgent::with("dtn://node/app".to_string()));
    core.push(bundle("b2", "dtn://node/app"));
    assert_eq!(core.stats.delivered, 1);
    assert_eq!(core.bundles().len(), 0);
    let aa = core.get_endpoint(&"dtn://node/app".to_string()).unwrap();
    assert_eq!(aa.deliveries.len(), 1);
    assert_eq!(aa.deliveries[0].id, "b2");
}

#[test]
fn fragment_is_stored_not_delivered() {
    let mut core = DtnCore::new("node1".to_string());
    core.register_application_agent(SimpleApplicationAgent::with("dtn://node/app".to_string()));
    core.push(Bundle::new("f1".to_string(), "dtn://node/app".to_string(), true));
    assert_eq!(core.stats.delivered, 0);
    assert_eq!(core.bundles(), vec!["f1".to_string()]);
}

#[test]
fn process_delivers_all_matching_and_removes_them() {
    let mut core = DtnCore::new("node1".to_string());
    core.push(bundle("keep", "dtn://elsewhere/x"));
    core.push(bundle("d1", "dtn://node/app"));
    core.push(bundle("d2", "dtn://node/app"));
    core.register_application_agent(SimpleApplicationAgent::with("dtn://node/app".to_string()));
    core.process();
    assert_eq!(core.stats.delivered, 2);
    assert_eq!(core.bundles(), vec!["keep".to_string()]);
    let aa = core.get_endpoint(&"dtn://node/app".to_string()).unwrap();
    assert_eq!(aa.deliveries.len(), 2);
    assert_eq!(aa.deliveries[0].id, "d1");
    assert_eq!(aa.deliveries[1].id, "d2");
}

#[test]
fn statistics_never_decrease() {
    let mut core = DtnCore::new("node1".to_string());
    core.register_application_agent(SimpleApplicationAgent::with("dtn://node/app".to_string()));
    let mut last = (0u64, 0u64, 0u64);
    let steps: Vec<Bundle> = vec![
        bundle("s1", "dtn://node/app"),
        bundle("s1", "dtn://node/app"),
        bundle("s2", "dtn://remote/x"),
        bundle("s2", "dtn://remote/x"),
        bundle("s3", "dtn://node/app"),
    ];
    for b in steps {
        core.push(b);
        let now = (core.stats.incoming, core.stats.dups, core.stats.delivered);
        assert!(now.0 >= last.0 && now.1 >= last.1 && now.2 >= last.2);
        last = now;
    }
    core.process();
    let now = (core.stats.incoming, core.stats.dups, core.stats.delivered);
    assert!(now.0 >= last.0 && now.1 >= last.1 && now.2 >= last.2);
}

#[test]
fn scenario_unregistered_destination_retains_bundle() {
    let mut core = DtnCore::new("node1".to_string());
    core.peers.upsert(peer("10.0.0.1", Some("dtn://n1"), &["mtcp"]));
    core.peers.upsert(peer("10.0.0.2", Some("dtn://n2"), &["mtcp"]));
    core.push(bundle("b1", "dtn://nowhere/app"));
    core.process();
    assert_eq!(core.bundles(), vec!["b1".to_string()]);
    let agent = dtn7::flooding::FloodingRoutingAgent::new();
    let pack = BundlePack::from(bundle("b1", "dtn://nowhere/app"));
    let (senders, delete) = agent.sender_for_bundle(&pack, &core.peers);
    assert_eq!(senders.len(), 2);
    assert!(!delete);
}

#[test]
fn scenario_registered_destination_delivers_immediately() {
    let mut core = DtnCore::new("node1".to_string());
    core.register_application_agent(SimpleApplicationAgent::with("dtn://node/app".to_string()));
    core.push(bundle("b2", "dtn://node/app"));
    assert_eq!(core.stats.delivered, 1);
    assert!(core.bundles().is_empty());
}

#[test]
fn register_and_unregister_agents() {
    let mut core = DtnCore::new("node1".to_string());
    core.register_application_agent(SimpleApplicationAgent::with("dtn://node/a".to_string()));
    core.register_application_agent(SimpleApplicationAgent::with("dtn://node/b".to_string()));
    assert_eq!(core.eids(), vec!["dtn://node/a".to_string(), "dtn://node/b".to_string()]);
    let gone = SimpleApplicationAgent::with("dtn://node/a".to_string());
    core.unregister_application_agent(&gone);
    assert_eq!(core.eids(), vec!["dtn://node/b".to_string()]);
    assert!(core.get_endpoint(&"dtn://node/a".to_string()).is_none());
}

#[test]
fn delivery_goes_to_first_agent_with_matching_endpoint() {
    let mut core = DtnCore::new("node1".to_string());
    core.register_application_agent(SimpleApplicationAgent::with("dtn://node/app".to_string()));
    core.register_application_agent(SimpleApplicationAgent::with("dtn://node/app".to_string()));
    core.push(bundle("b5", "dtn://node/app"));
    let first = core.get_endpoint(&"dtn://node/app".to_string()).unwrap();
    assert_eq!(first.deliveries.len(), 1);
    assert_eq!(core.endpoints[1].deliveries.len(), 0);
}

#[test]
fn default_core_has_random_ten_char_nodeid() {
    let core = DtnCore::default();
    assert_eq!(core.nodeid.len(), 10);
    assert!(core.nodeid.chars().all(|c| c.is_ascii_alphanumeric()));
    assert_eq!(core.stats.incoming, 0);
    assert!(core.eids().is_empty());
}

#[test]
fn store_holds_and_removes_by_id() {
    let mut store = SimpleBundleStore::new();
    let p1 = BundlePack::from(bundle("x1", "dtn://a/b"));
    let p2 = BundlePack::from(bundle("x2", "dtn://a/b"));
    assert!(!store.has_item(&p1));
    store.push(p1.clone());
    store.push(p2);
    assert!(store.has_item(&p1));
    assert_eq!(store.len(), 2);
    store.remove(&"x1".to_string());
    assert!(!store.has_item(&p1));
    assert_eq!(store.len(), 1);
    assert_eq!(store.iter()[0].id(), "x2");
}

#[test]
fn peer_registry_upsert_replaces_by_address() {
    let mut reg = PeerRegistry::new();
    reg.upsert(peer("10.0.0.1", None, &["mtcp"]));
    reg.upsert(peer("10.0.0.1", Some("dtn://n1"), &["http", "mtcp"]));
    assert_eq!(reg.len(), 1);
    assert_eq!(reg.first_cla(&"10.0.0.1".to_string()), Some("http".to_string()));
    reg.remove(&"10.0.0.1".to_string());
    assert_eq!(reg.len(), 0);
    assert_eq!(reg.first_cla(&"10.0.0.1".to_string()), None);
}

#[test]
fn peer_creation_and_touch_record_the_given_moment() {
    let mut p = DtnPeer::with_last_contact(
        Some("dtn://n9".to_string()),
        "10.0.0.9".to_string(),
        PeerType::Static,
        vec!["mtcp".to_string()],
        1000,
    );
    assert_eq!(p.last_contact, 1000);
    p.touch_at(2000);
    assert_eq!(p.last_contact, 2000);
    assert_eq!(p.addr, "10.0.0.9");
    assert_eq!(p.cl_list, vec!["mtcp".to_string()]);
}

#[test]
fn registry_touch_updates_only_the_named_entry() {
    let mut reg = PeerRegistry::new();
    reg.upsert(DtnPeer::with_last_contact(None, "10.0.0.1".to_string(), PeerType::Dynamic, vec![], 10));
    reg.upsert(DtnPeer::with_last_contact(None, "10.0.0.2".to_string(), PeerType::Dynamic, vec![], 10));
    reg.touch_at(&"10.0.0.2".to_string(), 99);
    let entries = reg.iter();
    assert_eq!(entries[0].last_contact, 10);
    assert_eq!(entries[1].last_contact, 99);
    reg.touch_at(&"10.0.0.7".to_string(), 123);
    assert_eq!(reg.iter()[0].last_contact, 10);
    assert_eq!(reg.iter()[1].last_contact, 99);
}

#[test]
fn peer_touch_keeps_identity() {
    let mut p = peer("10.0.0.9", Some("dtn://n9"), &["mtcp"]);
    let addr_before = p.addr.clone();
    let clas_before = p.cl_list.clone();
    p.touch();
    assert_eq!(p.addr, addr_before);
    assert_eq!(p.cl_list, clas_before);
    assert_eq!(p.eid, Some("dtn://n9".to_string()));
}

#[test]
fn peer_first_cla_none_without_advertised_agents() {
    let p = peer("10.0.0.3", None, &[]);
    assert_eq!(p.first_cla(), None);
    let q = peer("10.0.0.4", None, &["lora", "mtcp"]);
    assert_eq!(q.first_cla(), Some("lora".to_string()));
}

#[test]
fn bundle_pack_carries_bundle_id() {
    let b = Bundle::new("id-7".to_string(), "dtn://x/y".to_string(), false);
    assert!(!b.has_fragmentation());
    let p = BundlePack::from(b);
    assert_eq!(p.id(), "id-7");
}
