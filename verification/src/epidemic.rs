//! Epidemic routing: bundle-existence gossip. The agent remembers, per
//! peer, which bundle ids it has already offered or which the peer is known
//! to hold, and otherwise floods like the flooding strategy.
use crate::bundle::BundlePack;
use crate::erouting::{Sender, SenderView};
use crate::flooding::sender_of_peer;
use crate::peer::{PeerRegistry, PeerView};
use vstd::prelude::*;

verus! {

/// True when the history records that the peer at this address already has
/// (or was already offered) the bundle id.
pub open spec fn knows(h: Seq<(Seq<char>, Seq<char>)>, id: Seq<char>, addr: Seq<char>) -> bool {
    exists|i: int| 0 <= i < h.len() && h[i].0 == id && h[i].1 == addr
}

/// What epidemic returns: one sender per peer that advertises a
/// convergence-layer agent and is not yet known to hold the bundle.
pub open spec fn epidemic_senders(
    h: Seq<(Seq<char>, Seq<char>)>,
    peers: Seq<PeerView>,
    id: Seq<char>,
) -> Seq<SenderView>
    decreases peers.len(),
{
    if peers.len() == 0 {
        Seq::empty()
    } else {
        let pre = epidemic_senders(h, peers.drop_last(), id);
        if peers.last().cl_list.len() > 0 && !knows(h, id, peers.last().addr) {
            pre.push(sender_of_peer(peers.last()))
        } else {
            pre
        }
    }
}

/// The history after one routing call: every peer that received a sender is
/// recorded as offered the bundle id.
pub open spec fn extend_history(
    h: Seq<(Seq<char>, Seq<char>)>,
    peers: Seq<PeerView>,
    id: Seq<char>,
) -> Seq<(Seq<char>, Seq<char>)>
    decreases peers.len(),
{
    if peers.len() == 0 {
        h
    } else {
        let pre = extend_history(h, peers.drop_last(), id);
        if peers.last().cl_list.len() > 0 && !knows(h, id, peers.last().addr) {
            pre.push((id, peers.last().addr))
        } else {
            pre
        }
    }
}

/// The epidemic strategy: its state is the (bundle id, peer address)
/// history of offers and acknowledged receipts.
pub struct EpidemicRoutingAgent {
    pub history: Vec<(String, String)>,
}

impl View for EpidemicRoutingAgent {
    type V = Seq<(Seq<char>, Seq<char>)>;

    open spec fn view(&self) -> Seq<(Seq<char>, Seq<char>)> {
        self.history@.map_values(|p: (String, String)| (p.0@, p.1@))
    }
}

impl EpidemicRoutingAgent {
    /// A fresh agent with an empty history.
    pub fn new() -> (r: EpidemicRoutingAgent)
        ensures
            r@ == Seq::<(Seq<char>, Seq<char>)>::empty(),
    {
        let r = EpidemicRoutingAgent { history: Vec::new() };
        proof {
            assert(r@ =~= Seq::<(Seq<char>, Seq<char>)>::empty());
        }
        r
    }

    /// Whether the history holds this (bundle id, peer address) pair.
    fn knows_pair(&self, id: &String, addr: &String) -> (r: bool)
        ensures
            r == knows(self@, id@, addr@),
    {
        let mut i: usize = 0;
        while i < self.history.len()
            invariant
                i <= self@.len(),
                self@.len() == self.history.len(),
                forall|k: int| 0 <= k < i ==> !(#[trigger] self@[k].0 == id@ && self@[k].1 == addr@),
            decreases self.history.len() - i,
        {
            if self.history[i].0.eq(id) && self.history[i].1.eq(addr) {
                proof {
                    assert(self@[i as int].0 == id@ && self@[i as int].1 == addr@);
                }
                return true;
            }
            i = i + 1;
        }
        proof {
            if knows(self@, id@, addr@) {
                let j = choose|j: int| 0 <= j < self@.len() && self@[j].0 == id@ && self@[j].1 == addr@;
                assert(!(self@[j].0 == id@ && self@[j].1 == addr@));
            }
        }
        false
    }

    /// Record that the peer holds the bundle: it will not be offered the
    /// bundle again.
    pub fn note_peer_has(&mut self, id: &String, addr: &String)
        ensures
            final(self)@ == old(self)@.push((id@, addr@)),
    {
        let ghost pre = self@;
        self.history.push((id.clone(), addr.clone()));
        proof {
            assert(self@ =~= pre.push((id@, addr@)));
        }
    }

    /// One sender per peer that advertises a convergence-layer agent and is
    /// not known to hold the bundle; every offered peer is recorded, and
    /// the bundle stays in the store.
    pub fn sender_for_bundle(&mut self, bp: &BundlePack, peers: &PeerRegistry) -> (r: (Vec<Sender>, bool))
        ensures
            r.0@.map_values(|s: Sender| s@) == epidemic_senders(old(self)@, peers@, bp@.id),
            r.1 == false,
            final(self)@ == extend_history(old(self)@, peers@, bp@.id),
    {
        let ghost h0 = self@;
        let entries = peers.iter();
        let mut clas: Vec<Sender> = Vec::new();
        let mut added: Vec<(String, String)> = Vec::new();
        let mut i: usize = 0;
        while i < entries.len()
            invariant
                i <= entries@.len(),
                entries@.map_values(|p: crate::peer::DtnPeer| p@) == peers@,
                self@ == h0,
                self@.len() == self.history.len(),
                clas@.map_values(|s: Sender| s@) == epidemic_senders(h0, peers@.take(i as int), bp@.id),
                h0 + added@.map_values(|p: (String, String)| (p.0@, p.1@))
                    == extend_history(h0, peers@.take(i as int), bp@.id),
            decreases entries.len() - i,
        {
            let ghost prefix = peers@.take(i + 1 as int);
            proof {
                assert(prefix.drop_last() =~= peers@.take(i as int));
                assert(prefix.last() == peers@[i as int]);
            }
            match entries[i].first_cla() {
                Some(agent) => {
                    if !self.knows_pair(&bp.bundle.id, &entries[i].addr) {
                        let next_hop = match &entries[i].eid {
                            Some(e) => e.clone(),
                            None => String::new(),
                        };
                        let s = Sender {
                            remote: entries[i].addr.clone(),
                            port: None,
                            agent,
                            next_hop,
                        };
                        proof {
                            assert(s@ =~= sender_of_peer(peers@[i as int]));
                        }
                        clas.push(s);
                        added.push((bp.bundle.id.clone(), entries[i].addr.clone()));
                        proof {
                            assert(h0 + added@.map_values(|p: (String, String)| (p.0@, p.1@))
                                =~= extend_history(h0, prefix, bp@.id));
                        }
                    }
                }
                None => {}
            }
            proof {
                assert(clas@.map_values(|s: Sender| s@) =~= epidemic_senders(h0, prefix, bp@.id));
                assert(h0 + added@.map_values(|p: (String, String)| (p.0@, p.1@))
                    =~= extend_history(h0, prefix, bp@.id));
            }
            i = i + 1;
        }
        let ghost added_v = added@.map_values(|p: (String, String)| (p.0@, p.1@));
        self.history.append(&mut added);
        proof {
            assert(peers@.take(peers@.len() as int) =~= peers@);
            assert(self@ =~= h0 + added_v);
        }
        (clas, false)
    }
}

} // verus!
