//! The external routing protocol: the tagged packet union exchanged with an
//! out-of-process decision-maker. Every variant is a self-contained record;
//! the encoding layer around the daemon frames one packet per message.
use crate::bundle::{Bundle, BundlePack};
use crate::peer::{DtnPeer, PeerView};
use vstd::prelude::*;

verus! {

/// Mathematical image of a sender: where to hand a bundle next.
#[verifier::ext_equal]
pub ghost struct SenderView {
    pub remote: Seq<char>,
    pub port: Option<u16>,
    pub agent: Seq<char>,
    pub next_hop: Seq<char>,
}

/// A resolved hand-off target for one bundle: peer address, optional port,
/// convergence-layer agent name, and the next-hop endpoint id. Produced per
/// routing call, never persisted.
pub struct Sender {
    pub remote: String,
    pub port: Option<u16>,
    pub agent: String,
    pub next_hop: String,
}

impl View for Sender {
    type V = SenderView;

    open spec fn view(&self) -> SenderView {
        SenderView {
            remote: self.remote@,
            port: self.port,
            agent: self.agent@,
            next_hop: self.next_hop@,
        }
    }
}

impl Clone for Sender {
    fn clone(&self) -> (r: Self)
        ensures
            r@ == self@,
    {
        let r = Sender {
            remote: self.remote.clone(),
            port: self.port,
            agent: self.agent.clone(),
            next_hop: self.next_hop.clone(),
        };
        proof {
            assert(r@ =~= self@);
        }
        r
    }
}

/// Asks the external decision-maker for senders for one bundle; carries the
/// names of the locally available convergence layers.
pub struct RequestSenderForBundle {
    pub clas: Vec<String>,
    pub bp: BundlePack,
}

/// The decision-maker's answer: the original pack, the senders to try in
/// order, and whether to delete the bundle once all sends completed.
pub struct SenderForBundleResponse {
    pub bp: BundlePack,
    pub clas: Vec<Sender>,
    pub delete_afterwards: bool,
}

/// Emitted when no response for the pack arrived within the configured
/// window; it resolves the request to "no senders, do not delete".
pub struct Timeout {
    pub bp: BundlePack,
}

/// Signals that sending a bundle over a convergence layer failed.
pub struct SendingFailed {
    pub bid: String,
    pub cla_sender: String,
}

/// Signals an incoming bundle with a known previous hop.
pub struct IncomingBundle {
    pub bndl: Bundle,
}

/// Signals an incoming bundle whose previous node is unknown.
pub struct IncomingBundleWithoutPreviousNode {
    pub bid: String,
    pub node_name: String,
}

/// Signals a newly encountered peer, with its registry entry.
pub struct EncounteredPeer {
    pub name: String,
    pub eid: String,
    pub peer: DtnPeer,
}

/// Signals that a peer was dropped.
pub struct DroppedPeer {
    pub name: String,
    pub eid: String,
}

/// The full peer state at the point of connection: address and entry of
/// every known peer.
pub struct PeerState {
    pub peers: Vec<(String, DtnPeer)>,
}

/// Registers one more service.
pub struct AddService {
    pub tag: u8,
    pub service: String,
}

/// The full service state at the point of connection.
pub struct ServiceState {
    pub service_list: Vec<(u8, String)>,
}

/// One message of the external routing protocol; the encoding layer tags
/// each frame with the variant it carries.
pub enum Packet {
    RequestSenderForBundle(RequestSenderForBundle),
    SenderForBundleResponse(SenderForBundleResponse),
    Timeout(Timeout),
    SendingFailed(SendingFailed),
    IncomingBundle(IncomingBundle),
    IncomingBundleWithoutPreviousNode(IncomingBundleWithoutPreviousNode),
    EncounteredPeer(EncounteredPeer),
    DroppedPeer(DroppedPeer),
    PeerState(PeerState),
    ServiceState(ServiceState),
    ServiceAdd(AddService),
}

/// The pairs a peer-state snapshot carries, keyed like the registry.
pub open spec fn peer_pairs_view(pairs: Seq<(String, DtnPeer)>) -> Seq<(Seq<char>, PeerView)> {
    pairs.map_values(|p: (String, DtnPeer)| (p.0@, p.1@))
}

/// A peer-state snapshot that mirrors the registry: one pair per entry, in
/// registry order, keyed by the entry's address.
pub fn peer_state_snapshot(peers: &Vec<DtnPeer>) -> (r: PeerState)
    ensures
        r.peers@.len() == peers@.len(),
        forall|i: int| 0 <= i < peers@.len() ==> #[trigger] peer_pairs_view(r.peers@)[i]
            == (peers@[i]@.addr, peers@[i]@),
{
    let mut out: Vec<(String, DtnPeer)> = Vec::new();
    let mut i: usize = 0;
    while i < peers.len()
        invariant
            i <= peers@.len(),
            out@.len() == i,
            forall|k: int| 0 <= k < i ==> #[trigger] peer_pairs_view(out@)[k]
                == (peers@[k]@.addr, peers@[k]@),
        decreases peers.len() - i,
    {
        let entry = peers[i].clone();
        let addr = entry.addr.clone();
        let ghost out_pre = out@;
        out.push((addr, entry));
        proof {
            assert forall|k: int| 0 <= k < i + 1 implies #[trigger] peer_pairs_view(out@)[k]
                == (peers@[k]@.addr, peers@[k]@) by {
                assert(peer_pairs_view(out@)[k] == (out@[k].0@, out@[k].1@));
                if k < i {
                    assert(out@[k] == out_pre[k]);
                    assert(peer_pairs_view(out_pre)[k] == (out_pre[k].0@, out_pre[k].1@));
                }
            }
        }
        i = i + 1;
    }
    PeerState { peers: out }
}

/// A service-state snapshot that mirrors the registered services, pushed on
/// connection establishment so the external party can resynchronize.
pub fn service_state_snapshot(services: &Vec<(u8, String)>) -> (r: ServiceState)
    ensures
        r.service_list@.len() == services@.len(),
        forall|i: int| 0 <= i < services@.len() ==> #[trigger] r.service_list@[i].0 == services@[i].0
            && r.service_list@[i].1@ == services@[i].1@,
{
    let mut out: Vec<(u8, String)> = Vec::new();
    let mut i: usize = 0;
    while i < services.len()
        invariant
            i <= services@.len(),
            out@.len() == i,
            forall|k: int| 0 <= k < i ==> #[trigger] out@[k].0 == services@[k].0
                && out@[k].1@ == services@[k].1@,
        decreases services.len() - i,
    {
        let tag = services[i].0;
        let service = services[i].1.clone();
        out.push((tag, service));
        i = i + 1;
    }
    ServiceState { service_list: out }
}

/// The outbound packet for one incremental service registration.
pub fn add_service_packet(tag: u8, service: String) -> (r: Packet)
    ensures
        r matches Packet::ServiceAdd(a) && a.tag == tag && a.service@ == service@,
{
    Packet::ServiceAdd(AddService { tag, service })
}

} // verus!
