//! The terminal strategy: a node that only originates and terminates
//! bundles, never forwards.
use crate::bundle::BundlePack;
use crate::erouting::Sender;
use crate::peer::PeerRegistry;
use vstd::prelude::*;

verus! {

/// The stateless sink strategy.
pub struct SinkRoutingAgent {}

impl SinkRoutingAgent {
    pub fn new() -> (r: SinkRoutingAgent) {
        SinkRoutingAgent {}
    }

    /// Always an empty sender list, whatever the peer registry holds, and
    /// never a deletion.
    pub fn sender_for_bundle(&self, _bp: &BundlePack, _peers: &PeerRegistry) -> (r: (Vec<Sender>, bool))
        ensures
            r.0@.len() == 0,
            r.1 == false,
    {
        (Vec::new(), false)
    }
}

} // verus!
