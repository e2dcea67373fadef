//! The routing strategy layer: one closed set of strategies behind a tagged
//! union, selected by configuration name, plus the daemon events the active
//! strategy is notified of.
use crate::bundle::{Bundle, BundlePack};
use crate::epidemic::{epidemic_senders, extend_history, EpidemicRoutingAgent};
use crate::erouting::{
    DroppedPeer, EncounteredPeer, IncomingBundle, IncomingBundleWithoutPreviousNode, Packet,
    Sender, SendingFailed,
};
use crate::external::{ExternalRoutingAgent, ExternalView, PendingView, DEFAULT_TIMEOUT_SECS};
use crate::flooding::{flooding_senders, FloodingRoutingAgent};
use crate::peer::{DtnPeer, PeerRegistry};
use crate::sink::SinkRoutingAgent;
use vstd::prelude::*;

verus! {

/// A lifecycle event fed to the active strategy: a failed send, an incoming
/// bundle (with or without a known previous node), or a peer appearing or
/// disappearing.
pub enum RoutingNotifcation {
    SendingFailed(String, String),
    IncomingBundle(Bundle),
    IncomingBundleWithoutPreviousNode(String, String),
    EncounteredPeer(String, DtnPeer),
    DroppedPeer(String),
}

/// True when the packet is the outbound image of the notification.
pub open spec fn packet_of_notification_ok(n: RoutingNotifcation, p: Packet) -> bool {
    match n {
        RoutingNotifcation::SendingFailed(bid, cla) => (
            p matches Packet::SendingFailed(sf) && sf.bid@ == bid@ && sf.cla_sender@ == cla@
        ),
        RoutingNotifcation::IncomingBundle(bndl) => (
            p matches Packet::IncomingBundle(ib) && ib.bndl@ == bndl@
        ),
        RoutingNotifcation::IncomingBundleWithoutPreviousNode(bid, node) => (
            p matches Packet::IncomingBundleWithoutPreviousNode(ib)
                && ib.bid@ == bid@ && ib.node_name@ == node@
        ),
        RoutingNotifcation::EncounteredPeer(eid, peer) => (
            p matches Packet::EncounteredPeer(ep)
                && ep.name@ == eid@ && ep.eid@ == eid@ && ep.peer@ == peer@
        ),
        RoutingNotifcation::DroppedPeer(eid) => (
            p matches Packet::DroppedPeer(dp) && dp.name@ == eid@ && dp.eid@ == eid@
        ),
    }
}

/// The outbound protocol packet that mirrors a daemon event, as the
/// external strategy forwards it.
pub fn notification_packet(n: &RoutingNotifcation) -> (r: Packet)
    ensures
        packet_of_notification_ok(*n, r),
{
    match n {
        RoutingNotifcation::SendingFailed(bid, cla) => Packet::SendingFailed(SendingFailed {
            bid: bid.clone(),
            cla_sender: cla.clone(),
        }),
        RoutingNotifcation::IncomingBundle(bndl) => Packet::IncomingBundle(IncomingBundle {
            bndl: bndl.clone(),
        }),
        RoutingNotifcation::IncomingBundleWithoutPreviousNode(bid, node) => (
            Packet::IncomingBundleWithoutPreviousNode(IncomingBundleWithoutPreviousNode {
                bid: bid.clone(),
                node_name: node.clone(),
            })
        ),
        RoutingNotifcation::EncounteredPeer(eid, peer) => Packet::EncounteredPeer(EncounteredPeer {
            name: eid.clone(),
            eid: eid.clone(),
            peer: peer.clone(),
        }),
        RoutingNotifcation::DroppedPeer(eid) => Packet::DroppedPeer(DroppedPeer {
            name: eid.clone(),
            eid: eid.clone(),
        }),
    }
}

/// Mathematical image of the active strategy's private state.
pub ghost enum RouterView {
    Epidemic(Seq<(Seq<char>, Seq<char>)>),
    Flooding,
    Sink,
    External(ExternalView),
}

/// What a notification does to the epidemic history: an incoming bundle
/// with a named previous node records that the node holds the bundle;
/// everything else leaves the history alone.
pub open spec fn epidemic_notify(
    h: Seq<(Seq<char>, Seq<char>)>,
    n: RoutingNotifcation,
) -> Seq<(Seq<char>, Seq<char>)> {
    match n {
        RoutingNotifcation::IncomingBundleWithoutPreviousNode(bid, node) => h.push((bid@, node@)),
        _ => h,
    }
}

/// The active strategy: exactly one of the four, selected once at startup.
pub enum RoutingAgentsEnum {
    EpidemicRoutingAgent(EpidemicRoutingAgent),
    FloodingRoutingAgent(FloodingRoutingAgent),
    SinkRoutingAgent(SinkRoutingAgent),
    ExternalRoutingAgent(ExternalRoutingAgent),
}

impl View for RoutingAgentsEnum {
    type V = RouterView;

    open spec fn view(&self) -> RouterView {
        match self {
            RoutingAgentsEnum::EpidemicRoutingAgent(a) => RouterView::Epidemic(a@),
            RoutingAgentsEnum::FloodingRoutingAgent(_) => RouterView::Flooding,
            RoutingAgentsEnum::SinkRoutingAgent(_) => RouterView::Sink,
            RoutingAgentsEnum::ExternalRoutingAgent(a) => RouterView::External(a@),
        }
    }
}

impl RoutingAgentsEnum {
    /// One-way lifecycle hook: the external strategy forwards every event
    /// as an outbound protocol packet, the epidemic strategy records peer
    /// knowledge, flooding and sink ignore the signal.
    pub fn notify(&mut self, notification: &RoutingNotifcation) -> (r: Option<Packet>)
        ensures
            old(self)@ matches RouterView::Epidemic(h) ==> (
                r is None && final(self)@ == RouterView::Epidemic(epidemic_notify(h, *notification))
            ),
            old(self)@ is Flooding ==> r is None && final(self)@ == old(self)@,
            old(self)@ is Sink ==> r is None && final(self)@ == old(self)@,
            old(self)@ is External ==> (
                final(self)@ == old(self)@
                && (r matches Some(p) && packet_of_notification_ok(*notification, p))
            ),
    {
        match self {
            RoutingAgentsEnum::EpidemicRoutingAgent(a) => {
                match notification {
                    RoutingNotifcation::IncomingBundleWithoutPreviousNode(bid, node) => {
                        a.note_peer_has(bid, node);
                    }
                    _ => {}
                }
                None
            }
            RoutingAgentsEnum::FloodingRoutingAgent(_) => None,
            RoutingAgentsEnum::SinkRoutingAgent(_) => None,
            RoutingAgentsEnum::ExternalRoutingAgent(_) => Some(notification_packet(notification)),
        }
    }

    /// The active strategy's forwarding decision for one bundle: the
    /// ordered senders to try and whether to delete the bundle after all
    /// sends. The external strategy answers like sink here; its decisions
    /// arrive asynchronously through its own request table.
    pub fn sender_for_bundle(&mut self, bp: &BundlePack, peers: &PeerRegistry) -> (r: (Vec<Sender>, bool))
        ensures
            old(self)@ matches RouterView::Epidemic(h) ==> (
                r.0@.map_values(|s: Sender| s@) == epidemic_senders(h, peers@, bp@.id)
                && r.1 == false
                && final(self)@ == RouterView::Epidemic(extend_history(h, peers@, bp@.id))
            ),
            old(self)@ is Flooding ==> (
                r.0@.map_values(|s: Sender| s@) == flooding_senders(peers@)
                && r.1 == false && final(self)@ == old(self)@
            ),
            old(self)@ is Sink ==> (r.0@.len() == 0 && r.1 == false && final(self)@ == old(self)@),
            old(self)@ is External ==> (r.0@.len() == 0 && r.1 == false && final(self)@ == old(self)@),
    {
        match self {
            RoutingAgentsEnum::EpidemicRoutingAgent(a) => a.sender_for_bundle(bp, peers),
            RoutingAgentsEnum::FloodingRoutingAgent(a) => a.sender_for_bundle(bp, peers),
            RoutingAgentsEnum::SinkRoutingAgent(a) => a.sender_for_bundle(bp, peers),
            RoutingAgentsEnum::ExternalRoutingAgent(a) => a.sender_for_bundle(bp),
        }
    }
}

/// The names a configuration may select a routing algorithm by.
pub fn routing_algorithms() -> (r: Vec<&'static str>)
    ensures
        r@.len() == 4,
        r@[0]@ == "epidemic"@,
        r@[1]@ == "flooding"@,
        r@[2]@ == "sink"@,
        r@[3]@ == "external"@,
{
    let mut v: Vec<&'static str> = Vec::new();
    v.push("epidemic");
    v.push("flooding");
    v.push("sink");
    v.push("external");
    v
}

/// The startup error for a routing-algorithm name that is none of
/// `epidemic`, `flooding`, `sink` or `external`; it carries the offending
/// name.
pub struct UnknownRoutingAgentError {
    pub name: String,
}

/// Select the routing strategy by its configuration name; an unknown name
/// is a configuration error at startup, never a crash at the first routing
/// call.
pub fn new(routingagent: &str) -> (r: Result<RoutingAgentsEnum, UnknownRoutingAgentError>)
    ensures
        routingagent@ == "flooding"@ ==> (r matches Ok(a) && a@ is Flooding),
        routingagent@ == "epidemic"@ ==> (
            r matches Ok(a) && a@ == RouterView::Epidemic(Seq::<(Seq<char>, Seq<char>)>::empty())
        ),
        routingagent@ == "sink"@ ==> (r matches Ok(a) && a@ is Sink),
        routingagent@ == "external"@ ==> (
            r matches Ok(a) && a@ == RouterView::External(ExternalView {
                connected: false,
                timeout_window: DEFAULT_TIMEOUT_SECS,
                pending: Seq::<PendingView>::empty(),
            })
        ),
        (routingagent@ != "flooding"@ && routingagent@ != "epidemic"@
            && routingagent@ != "sink"@ && routingagent@ != "external"@) ==> (
            r matches Err(e) && e.name@ == routingagent@
        ),
{
    proof {
        reveal_strlit("flooding");
        reveal_strlit("epidemic");
        reveal_strlit("sink");
        reveal_strlit("external");
        assert("flooding"@[0] == 'f' && "epidemic"@[0] == 'e' && "sink"@[0] == 's' && "external"@[0] == 'e');
        assert("epidemic"@[1] == 'p' && "external"@[1] == 'x');
        assert("flooding"@ != "epidemic"@ && "flooding"@ != "sink"@ && "flooding"@ != "external"@);
        assert("epidemic"@ != "sink"@ && "epidemic"@ != "external"@);
        assert("sink"@ != "external"@);
    }
    let name = routingagent.to_owned();
    if name.eq(&"flooding".to_owned()) {
        Ok(RoutingAgentsEnum::FloodingRoutingAgent(FloodingRoutingAgent::new()))
    } else if name.eq(&"epidemic".to_owned()) {
        Ok(RoutingAgentsEnum::EpidemicRoutingAgent(EpidemicRoutingAgent::new()))
    } else if name.eq(&"sink".to_owned()) {
        Ok(RoutingAgentsEnum::SinkRoutingAgent(SinkRoutingAgent::new()))
    } else if name.eq(&"external".to_owned()) {
        Ok(RoutingAgentsEnum::ExternalRoutingAgent(ExternalRoutingAgent::new()))
    } else {
        Err(UnknownRoutingAgentError { name })
    }
}

} // verus!
