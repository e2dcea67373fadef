//! Simple flooding-based routing: every bundle is offered to every known
//! peer, again and again, and never deleted after sending.
use crate::bundle::BundlePack;
use crate::erouting::{Sender, SenderView};
use crate::peer::{PeerRegistry, PeerView};
use vstd::prelude::*;

verus! {

/// The sender a peer contributes: its address, its first advertised
/// convergence-layer agent, and its endpoint id as next hop (empty when the
/// peer's endpoint id is still unknown).
pub open spec fn sender_of_peer(p: PeerView) -> SenderView {
    SenderView {
        remote: p.addr,
        port: None,
        agent: p.cl_list[0],
        next_hop: match p.eid {
            Some(e) => e,
            None => Seq::empty(),
        },
    }
}

/// What flooding returns: one sender per known peer that advertises at
/// least one convergence-layer agent, in registry order.
pub open spec fn flooding_senders(peers: Seq<PeerView>) -> Seq<SenderView>
    decreases peers.len(),
{
    if peers.len() == 0 {
        Seq::empty()
    } else {
        let pre = flooding_senders(peers.drop_last());
        if peers.last().cl_list.len() > 0 {
            pre.push(sender_of_peer(peers.last()))
        } else {
            pre
        }
    }
}

/// The stateless flooding strategy.
pub struct FloodingRoutingAgent {}

impl FloodingRoutingAgent {
    pub fn new() -> (r: FloodingRoutingAgent) {
        FloodingRoutingAgent {}
    }

    /// One sender per peer that advertises a convergence-layer agent; the
    /// bundle is kept in the store for future passes.
    pub fn sender_for_bundle(&self, _bp: &BundlePack, peers: &PeerRegistry) -> (r: (Vec<Sender>, bool))
        ensures
            r.0@.map_values(|s: Sender| s@) == flooding_senders(peers@),
            r.1 == false,
    {
        let entries = peers.iter();
        let mut clas: Vec<Sender> = Vec::new();
        let mut i: usize = 0;
        while i < entries.len()
            invariant
                i <= entries@.len(),
                entries@.map_values(|p: crate::peer::DtnPeer| p@) == peers@,
                clas@.map_values(|s: Sender| s@) == flooding_senders(peers@.take(i as int)),
            decreases entries.len() - i,
        {
            let ghost prefix = peers@.take(i + 1 as int);
            proof {
                assert(prefix.drop_last() =~= peers@.take(i as int));
                assert(prefix.last() == peers@[i as int]);
            }
            match entries[i].first_cla() {
                Some(agent) => {
                    let next_hop = match &entries[i].eid {
                        Some(e) => e.clone(),
                        None => String::new(),
                    };
                    let s = Sender {
                        remote: entries[i].addr.clone(),
                        port: None,
                        agent,
                        next_hop,
                    };
                    proof {
                        assert(s@ =~= sender_of_peer(peers@[i as int]));
                    }
                    clas.push(s);
                }
                None => {}
            }
            proof {
                assert(clas@.map_values(|s: Sender| s@) =~= flooding_senders(prefix));
            }
            i = i + 1;
        }
        proof {
            assert(peers@.take(peers@.len() as int) =~= peers@);
        }
        (clas, false)
    }
}

/// Flooding completeness: when every known peer advertises at least one
/// convergence-layer agent, flooding returns exactly one sender per peer,
/// and the sender at each index is built from the peer at that index.
pub proof fn lemma_flooding_completeness(peers: Seq<PeerView>)
    requires
        forall|i: int| 0 <= i < peers.len() ==> #[trigger] peers[i].cl_list.len() > 0,
    ensures
        flooding_senders(peers).len() == peers.len(),
        forall|i: int| 0 <= i < peers.len() ==> #[trigger] flooding_senders(peers)[i] == sender_of_peer(peers[i]),
    decreases peers.len(),
{
    if peers.len() > 0 {
        assert(forall|i: int| 0 <= i < peers.drop_last().len() ==> peers.drop_last()[i] == peers[i]);
        lemma_flooding_completeness(peers.drop_last());
    }
}

} // verus!
