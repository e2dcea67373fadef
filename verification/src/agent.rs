//! Local application agents: endpoint-identified receivers of bundles that
//! are destined to this node.
use crate::bundle::{Bundle, BundleView};
use vstd::prelude::*;

verus! {

/// Mathematical image of an application agent: its endpoint id and every
/// bundle delivered to it so far, in delivery order.
#[verifier::ext_equal]
pub ghost struct AgentView {
    pub eid: Seq<char>,
    pub deliveries: Seq<BundleView>,
}

/// An application agent that keeps what was delivered to it.
pub struct SimpleApplicationAgent {
    pub eid: String,
    pub deliveries: Vec<Bundle>,
}

impl View for SimpleApplicationAgent {
    type V = AgentView;

    open spec fn view(&self) -> AgentView {
        AgentView { eid: self.eid@, deliveries: self.deliveries@.map_values(|b: Bundle| b@) }
    }
}

impl SimpleApplicationAgent {
    /// A fresh agent for the given endpoint, with nothing delivered yet.
    pub fn with(eid: String) -> (r: SimpleApplicationAgent)
        ensures
            r@.eid == eid@,
            r@.deliveries == Seq::<BundleView>::empty(),
    {
        let r = SimpleApplicationAgent { eid, deliveries: Vec::new() };
        proof {
            assert(r@.deliveries =~= Seq::<BundleView>::empty());
        }
        r
    }

    /// The endpoint id this agent is registered for.
    pub fn eid(&self) -> (r: &String)
        ensures
            r@ == self@.eid,
    {
        &self.eid
    }

    /// Deliver one bundle to this agent.
    pub fn push(&mut self, bundle: &Bundle)
        ensures
            final(self)@.eid == old(self)@.eid,
            final(self)@.deliveries == old(self)@.deliveries.push(bundle@),
    {
        let b = bundle.clone();
        let ghost pre = self@.deliveries;
        self.deliveries.push(b);
        proof {
            assert(self@.deliveries =~= pre.push(bundle@));
        }
    }
}

/// True when some agent is registered for the given endpoint id.
pub open spec fn has_agent(agents: Seq<AgentView>, eid: Seq<char>) -> bool {
    exists|i: int| 0 <= i < agents.len() && agents[i].eid == eid
}

/// The index of the first agent registered for the endpoint id, or -1.
pub open spec fn find_agent(agents: Seq<AgentView>, eid: Seq<char>) -> int
    decreases agents.len(),
{
    if agents.len() == 0 {
        -1
    } else if agents[0].eid == eid {
        0
    } else if find_agent(agents.drop_first(), eid) < 0 {
        -1
    } else {
        1 + find_agent(agents.drop_first(), eid)
    }
}

/// What `find_agent` returns: -1 exactly when no agent carries the endpoint
/// id, and otherwise the first index that does.
pub proof fn lemma_find_agent_props(agents: Seq<AgentView>, eid: Seq<char>)
    ensures
        find_agent(agents, eid) < 0 <==> !has_agent(agents, eid),
        find_agent(agents, eid) >= 0 ==> 0 <= find_agent(agents, eid) < agents.len()
            && agents[find_agent(agents, eid)].eid == eid
            && (forall|k: int| 0 <= k < find_agent(agents, eid) ==> agents[k].eid != eid),
    decreases agents.len(),
{
    if agents.len() > 0 && agents[0].eid != eid {
        lemma_find_agent_props(agents.drop_first(), eid);
        assert(forall|i: int| 0 < i < agents.len() ==> agents[i] == agents.drop_first()[i - 1]);
        if !has_agent(agents.drop_first(), eid) {
            assert forall|i: int| 0 <= i < agents.len() implies agents[i].eid != eid by {
                if i > 0 {
                    assert(agents.drop_first()[i - 1] == agents[i]);
                }
            }
        } else {
            let j = choose|j: int| 0 <= j < agents.drop_first().len() && agents.drop_first()[j].eid == eid;
            assert(agents[j + 1].eid == eid);
        }
    }
}

/// Two registries with the same endpoint ids in the same order resolve every
/// lookup to the same index, whatever was delivered meanwhile.
pub proof fn lemma_find_agent_same_eids(a: Seq<AgentView>, b: Seq<AgentView>, eid: Seq<char>)
    requires
        a.len() == b.len(),
        forall|k: int| 0 <= k < a.len() ==> a[k].eid == b[k].eid,
    ensures
        find_agent(a, eid) == find_agent(b, eid),
        has_agent(a, eid) == has_agent(b, eid),
    decreases a.len(),
{
    if a.len() > 0 {
        assert(forall|k: int| 0 <= k < a.drop_first().len() ==> a.drop_first()[k] == a[k + 1]);
        assert(forall|k: int| 0 <= k < b.drop_first().len() ==> b.drop_first()[k] == b[k + 1]);
        lemma_find_agent_same_eids(a.drop_first(), b.drop_first(), eid);
    }
    if has_agent(a, eid) {
        let j = choose|j: int| 0 <= j < a.len() && a[j].eid == eid;
        assert(b[j].eid == eid);
    }
    if has_agent(b, eid) {
        let j = choose|j: int| 0 <= j < b.len() && b[j].eid == eid;
        assert(a[j].eid == eid);
    }
}

} // verus!
