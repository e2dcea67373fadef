//! The dispatch core: ingests bundles, deduplicates them against the store,
//! delivers locally destined bundles to registered application agents, and
//! keeps the running statistics.
use crate::agent::{find_agent, has_agent, lemma_find_agent_props, lemma_find_agent_same_eids, AgentView, SimpleApplicationAgent};
use crate::bundle::{Bundle, BundlePack, BundleView};
use crate::peer::{PeerRegistry, PeerView};
use crate::store::{count_id, ids_unique, lemma_absent_count_zero, lemma_push_count, store_has_id, SimpleBundleStore};
use crate::sys::{is_alphanumeric_char, random_alphanumeric_id};
use vstd::prelude::*;

verus! {

/// Running counters of the daemon. They only ever grow while the daemon
/// lives; a restart resets them.
#[derive(Clone, Copy, Debug, PartialEq, Eq, Structural)]
pub struct DtnStatistics {
    pub incoming: u64,
    pub dups: u64,
    pub outgoing: u64,
    pub delivered: u64,
    pub broken: u64,
}

/// A counter raised by one, stopping at the top of its range.
pub open spec fn sat_inc(x: u64) -> u64 {
    if x == u64::MAX {
        x
    } else {
        (x + 1) as u64
    }
}

/// A counter raised by a count, stopping at the top of its range.
pub open spec fn sat_add(x: u64, n: nat) -> u64 {
    if x + n > u64::MAX {
        u64::MAX
    } else {
        (x + n) as u64
    }
}

/// Mathematical image of the whole dispatch core.
#[verifier::ext_equal]
pub ghost struct CoreView {
    pub nodeid: Seq<char>,
    pub endpoints: Seq<AgentView>,
    pub store: Seq<BundleView>,
    pub stats: DtnStatistics,
    pub peers: Seq<PeerView>,
    pub cl_list: Seq<Seq<char>>,
}

/// What one `push` does to the core: the received counter always rises; a
/// bundle whose id is already stored only raises the duplicate counter; a
/// non-fragment destined to a registered agent is delivered to the first
/// such agent at once and never stored; everything else is stored.
pub open spec fn spec_push(c: CoreView, b: BundleView) -> CoreView {
    let stats1 = DtnStatistics { incoming: sat_inc(c.stats.incoming), ..c.stats };
    if store_has_id(c.store, b.id) {
        CoreView { stats: DtnStatistics { dups: sat_inc(stats1.dups), ..stats1 }, ..c }
    } else if !b.fragment && has_agent(c.endpoints, b.destination) {
        let j = find_agent(c.endpoints, b.destination);
        CoreView {
            stats: DtnStatistics { delivered: sat_inc(stats1.delivered), ..stats1 },
            endpoints: c.endpoints.update(
                j,
                AgentView { deliveries: c.endpoints[j].deliveries.push(b), ..c.endpoints[j] },
            ),
            ..c
        }
    } else {
        CoreView { stats: stats1, store: c.store.push(b), ..c }
    }
}

/// The packs a processing pass leaves in the store: those whose destination
/// no registered agent carries.
pub open spec fn spec_remaining(eps: Seq<AgentView>, store: Seq<BundleView>) -> Seq<BundleView>
    decreases store.len(),
{
    if store.len() == 0 {
        Seq::empty()
    } else {
        let pre = spec_remaining(eps, store.drop_last());
        if has_agent(eps, store.last().destination) {
            pre
        } else {
            pre.push(store.last())
        }
    }
}

/// The bundles a processing pass hands to the agent at index `j`, in store
/// order.
pub open spec fn spec_deliveries_to(eps: Seq<AgentView>, store: Seq<BundleView>, j: int) -> Seq<BundleView>
    decreases store.len(),
{
    if store.len() == 0 {
        Seq::empty()
    } else {
        let pre = spec_deliveries_to(eps, store.drop_last(), j);
        if find_agent(eps, store.last().destination) == j {
            pre.push(store.last())
        } else {
            pre
        }
    }
}

/// How many stored bundles a processing pass delivers.
pub open spec fn spec_delivered_count(eps: Seq<AgentView>, store: Seq<BundleView>) -> nat
    decreases store.len(),
{
    if store.len() == 0 {
        0
    } else {
        let pre = spec_delivered_count(eps, store.drop_last());
        if has_agent(eps, store.last().destination) {
            pre + 1
        } else {
            pre
        }
    }
}

/// What one processing pass does to the core: every stored bundle whose
/// destination a registered agent carries is delivered to the first such
/// agent and removed from the store, and the delivered counter rises by the
/// number of deliveries.
pub open spec fn spec_process(c: CoreView) -> CoreView {
    CoreView {
        endpoints: Seq::new(
            c.endpoints.len(),
            |j: int| AgentView {
                eid: c.endpoints[j].eid,
                deliveries: c.endpoints[j].deliveries + spec_deliveries_to(c.endpoints, c.store, j),
            },
        ),
        store: spec_remaining(c.endpoints, c.store),
        stats: DtnStatistics {
            delivered: sat_add(c.stats.delivered, spec_delivered_count(c.endpoints, c.store)),
            ..c.stats
        },
        ..c
    }
}

/// The dispatch core: node identity, registered application agents, the
/// bundle store, statistics, known peers, and the names of the configured
/// convergence layers.
pub struct DtnCore {
    pub nodeid: String,
    pub endpoints: Vec<SimpleApplicationAgent>,
    pub store: SimpleBundleStore,
    pub stats: DtnStatistics,
    pub peers: PeerRegistry,
    pub cl_list: Vec<String>,
}

impl View for DtnCore {
    type V = CoreView;

    open spec fn view(&self) -> CoreView {
        CoreView {
            nodeid: self.nodeid@,
            endpoints: self.endpoints@.map_values(|a: SimpleApplicationAgent| a@),
            store: self.store@,
            stats: self.stats,
            peers: self.peers@,
            cl_list: self.cl_list@.map_values(|s: String| s@),
        }
    }
}

impl DtnCore {
    /// A fresh core for the given node id: no agents, an empty store, zeroed
    /// statistics, no peers and no convergence layers.
    pub fn new(nodeid: String) -> (r: DtnCore)
        ensures
            r@ == (CoreView {
                nodeid: nodeid@,
                endpoints: Seq::<AgentView>::empty(),
                store: Seq::<BundleView>::empty(),
                stats: DtnStatistics { incoming: 0, dups: 0, outgoing: 0, delivered: 0, broken: 0 },
                peers: Seq::<PeerView>::empty(),
                cl_list: Seq::<Seq<char>>::empty(),
            }),
    {
        let r = DtnCore {
            nodeid,
            endpoints: Vec::new(),
            store: SimpleBundleStore::new(),
            stats: DtnStatistics { incoming: 0, dups: 0, outgoing: 0, delivered: 0, broken: 0 },
            peers: PeerRegistry::new(),
            cl_list: Vec::new(),
        };
        proof {
            assert(r@ =~~= (CoreView {
                nodeid: r.nodeid@,
                endpoints: Seq::<AgentView>::empty(),
                store: Seq::<BundleView>::empty(),
                stats: DtnStatistics { incoming: 0, dups: 0, outgoing: 0, delivered: 0, broken: 0 },
                peers: Seq::<PeerView>::empty(),
                cl_list: Seq::<Seq<char>>::empty(),
            }));
        }
        r
    }

    /// Register an application agent; later agents with the same endpoint id
    /// stand behind earlier ones.
    pub fn register_application_agent(&mut self, aa: SimpleApplicationAgent)
        ensures
            final(self)@ == (CoreView { endpoints: old(self)@.endpoints.push(aa@), ..old(self)@ }),
    {
        let ghost pre = self@;
        self.endpoints.push(aa);
        proof {
            assert(self@.endpoints =~= pre.endpoints.push(aa@));
            assert(self@ =~~= (CoreView { endpoints: pre.endpoints.push(aa@), ..pre }));
        }
    }

    /// Remove the first registered agent with the given agent's endpoint id,
    /// if one exists.
    pub fn unregister_application_agent(&mut self, aa: &SimpleApplicationAgent)
        ensures
            has_agent(old(self)@.endpoints, aa@.eid) ==> final(self)@ == (CoreView {
                endpoints: old(self)@.endpoints.remove(find_agent(old(self)@.endpoints, aa@.eid)),
                ..old(self)@
            }),
            !has_agent(old(self)@.endpoints, aa@.eid) ==> final(self)@ == old(self)@,
    {
        let ghost pre = self@;
        match self.position_of_endpoint(&aa.eid) {
            Some(i) => {
                self.endpoints.remove(i);
                proof {
                    assert(self@.endpoints =~= pre.endpoints.remove(i as int));
                    assert(self@ =~~= (CoreView { endpoints: pre.endpoints.remove(i as int), ..pre }));
                }
            }
            None => {}
        }
    }

    /// The endpoint ids of the registered agents, in registration order.
    pub fn eids(&self) -> (r: Vec<String>)
        ensures
            r@.map_values(|s: String| s@) == self@.endpoints.map_values(|a: AgentView| a.eid),
    {
        let mut r: Vec<String> = Vec::new();
        let mut i: usize = 0;
        while i < self.endpoints.len()
            invariant
                i <= self@.endpoints.len(),
                self@.endpoints.len() == self.endpoints.len(),
                r@.len() == i,
                forall|k: int| 0 <= k < i ==> #[trigger] r@[k]@ == self@.endpoints[k].eid,
            decreases self.endpoints.len() - i,
        {
            r.push(self.endpoints[i].eid.clone());
            i = i + 1;
        }
        proof {
            assert(r@.map_values(|s: String| s@) =~= self@.endpoints.map_values(|a: AgentView| a.eid));
        }
        r
    }

    /// The ids of the stored bundles, in store order.
    pub fn bundles(&self) -> (r: Vec<String>)
        ensures
            r@.map_values(|s: String| s@) == self@.store.map_values(|b: BundleView| b.id),
    {
        let mut r: Vec<String> = Vec::new();
        let mut i: usize = 0;
        while i < self.store.bundles.len()
            invariant
                i <= self@.store.len(),
                self@.store.len() == self.store.bundles.len(),
                r@.len() == i,
                forall|k: int| 0 <= k < i ==> #[trigger] r@[k]@ == self@.store[k].id,
            decreases self.store.bundles.len() - i,
        {
            r.push(self.store.bundles[i].id());
            i = i + 1;
        }
        proof {
            assert(r@.map_values(|s: String| s@) =~= self@.store.map_values(|b: BundleView| b.id));
        }
        r
    }

    /// The index of the first agent registered for the endpoint id, if any.
    fn position_of_endpoint(&self, eid: &String) -> (r: Option<usize>)
        ensures
            r matches Some(i) ==> i == find_agent(self@.endpoints, eid@) && i < self@.endpoints.len()
                && self@.endpoints[i as int].eid == eid@ && has_agent(self@.endpoints, eid@),
            r is None ==> !has_agent(self@.endpoints, eid@) && find_agent(self@.endpoints, eid@) < 0,
    {
        proof {
            lemma_find_agent_props(self@.endpoints, eid@);
        }
        let mut i: usize = 0;
        while i < self.endpoints.len()
            invariant
                i <= self@.endpoints.len(),
                self@.endpoints.len() == self.endpoints.len(),
                forall|k: int| 0 <= k < i ==> self@.endpoints[k].eid != eid@,
                find_agent(self@.endpoints, eid@) < 0 <==> !has_agent(self@.endpoints, eid@),
                find_agent(self@.endpoints, eid@) >= 0 ==> 0 <= find_agent(self@.endpoints, eid@) < self@.endpoints.len()
                    && self@.endpoints[find_agent(self@.endpoints, eid@)].eid == eid@
                    && (forall|k: int| 0 <= k < find_agent(self@.endpoints, eid@) ==> self@.endpoints[k].eid != eid@),
            decreases self.endpoints.len() - i,
        {
            if self.endpoints[i].eid.eq(eid) {
                proof {
                    assert(self@.endpoints[i as int].eid == eid@);
                    let f = find_agent(self@.endpoints, eid@);
                    assert(f >= 0);
                    assert(!(f < i) && !(i < f));
                }
                return Some(i);
            }
            i = i + 1;
        }
        proof {
            if has_agent(self@.endpoints, eid@) {
                let j = choose|j: int| 0 <= j < self@.endpoints.len() && self@.endpoints[j].eid == eid@;
                assert(self@.endpoints[j].eid != eid@);
            }
        }
        None
    }

    /// The first registered agent with the given endpoint id, if any.
    pub fn get_endpoint(&self, eid: &String) -> (r: Option<&SimpleApplicationAgent>)
        ensures
            has_agent(self@.endpoints, eid@) ==> (r matches Some(aa)
                && aa@ == self@.endpoints[find_agent(self@.endpoints, eid@)]),
            !has_agent(self@.endpoints, eid@) ==> r is None,
    {
        match self.position_of_endpoint(eid) {
            Some(i) => Some(&self.endpoints[i]),
            None => None,
        }
    }

    /// Ingest one bundle, as `spec_push` says: count it, absorb duplicates,
    /// deliver locally destined non-fragments at once, store the rest.
    pub fn push(&mut self, bndl: Bundle)
        ensures
            final(self)@ == spec_push(old(self)@, bndl@),
    {
        let ghost pre = self@;
        let ghost b = bndl@;
        if self.stats.incoming < u64::MAX {
            self.stats.incoming = self.stats.incoming + 1;
        }
        let bp = BundlePack::from(bndl);
        if self.store.has_item(&bp) {
            if self.stats.dups < u64::MAX {
                self.stats.dups = self.stats.dups + 1;
            }
            proof {
                assert(self@ =~~= spec_push(pre, b));
            }
            return;
        }
        if !bp.bundle.has_fragmentation() {
            match self.position_of_endpoint(&bp.bundle.destination) {
                Some(j) => {
                    let aa = &mut self.endpoints[j];
                    aa.push(&bp.bundle);
                    if self.stats.delivered < u64::MAX {
                        self.stats.delivered = self.stats.delivered + 1;
                    }
                    proof {
                        assert(self@.endpoints =~~= pre.endpoints.update(
                            j as int,
                            AgentView { deliveries: pre.endpoints[j as int].deliveries.push(b), ..pre.endpoints[j as int] },
                        ));
                        assert(self@ =~~= spec_push(pre, b));
                    }
                    return;
                }
                None => {}
            }
        }
        self.store.push(bp);
        proof {
            assert(self@ =~~= spec_push(pre, b));
        }
    }

    /// One scheduled processing pass, as `spec_process` says: deliver every
    /// stored bundle whose destination a registered agent carries, and drop
    /// those bundles from the store. The convergence-layer hooks that pull
    /// fresh forwarding work afterwards live outside the core.
    pub fn process(&mut self)
        ensures
            final(self)@ == spec_process(old(self)@),
    {
        let ghost pre = self@;
        let ghost eps0 = pre.endpoints;
        let ghost store0 = pre.store;
        let n = self.store.bundles.len();
        let mut kept: Vec<BundlePack> = Vec::new();
        let mut i: usize = 0;
        while i < n
            invariant
                i <= n,
                n == store0.len(),
                self@.store == store0,
                self@.nodeid == pre.nodeid,
                self@.peers == pre.peers,
                self@.cl_list == pre.cl_list,
                self.stats.incoming == pre.stats.incoming,
                self.stats.dups == pre.stats.dups,
                self.stats.outgoing == pre.stats.outgoing,
                self.stats.broken == pre.stats.broken,
                self.stats.delivered == sat_add(pre.stats.delivered, spec_delivered_count(eps0, store0.take(i as int))),
                self@.endpoints.len() == eps0.len(),
                forall|j: int| 0 <= j < eps0.len() ==> #[trigger] self@.endpoints[j].eid == eps0[j].eid,
                forall|j: int| 0 <= j < eps0.len() ==> #[trigger] self@.endpoints[j].deliveries
                    == eps0[j].deliveries + spec_deliveries_to(eps0, store0.take(i as int), j),
                kept@.map_values(|p: BundlePack| p@) == spec_remaining(eps0, store0.take(i as int)),
            decreases n - i,
        {
            let ghost prefix = store0.take(i + 1 as int);
            proof {
                assert(prefix.drop_last() =~= store0.take(i as int));
                assert(prefix.last() == store0[i as int]);
            }
            let b = self.store.bundles[i].bundle.clone();
            proof {
                assert(b@ == store0[i as int]);
                lemma_find_agent_same_eids(self@.endpoints, eps0, b@.destination);
            }
            let ghost eps_pre = self@.endpoints;
            match self.position_of_endpoint(&b.destination) {
                Some(j) => {
                    proof {
                        assert(find_agent(eps0, b@.destination) == j);
                        assert(has_agent(eps0, b@.destination));
                    }
                    let aa = &mut self.endpoints[j];
                    aa.push(&b);
                    if self.stats.delivered < u64::MAX {
                        self.stats.delivered = self.stats.delivered + 1;
                    }
                    proof {
                        assert(self@.endpoints =~= eps_pre.update(
                            j as int,
                            AgentView {
                                eid: eps_pre[j as int].eid,
                                deliveries: eps_pre[j as int].deliveries.push(b@),
                            },
                        ));
                        assert forall|k: int| 0 <= k < eps0.len() implies #[trigger] self@.endpoints[k].deliveries
                            == eps0[k].deliveries + spec_deliveries_to(eps0, prefix, k) by {
                            if k == j {
                                assert(self@.endpoints[k].deliveries
                                    == eps_pre[k].deliveries.push(b@));
                                assert(eps_pre[k].deliveries
                                    == eps0[k].deliveries + spec_deliveries_to(eps0, store0.take(i as int), k));
                                assert(spec_deliveries_to(eps0, prefix, k)
                                    == spec_deliveries_to(eps0, store0.take(i as int), k).push(b@));
                                assert((eps0[k].deliveries + spec_deliveries_to(eps0, store0.take(i as int), k)).push(b@)
                                    =~= eps0[k].deliveries + spec_deliveries_to(eps0, store0.take(i as int), k).push(b@));
                            } else {
                                assert(self@.endpoints[k].deliveries == eps_pre[k].deliveries);
                                assert(spec_deliveries_to(eps0, prefix, k) == spec_deliveries_to(eps0, store0.take(i as int), k));
                            }
                        }
                        assert(kept@.map_values(|p: BundlePack| p@) =~= spec_remaining(eps0, prefix));
                    }
                }
                None => {
                    proof {
                        assert(!has_agent(eps0, b@.destination));
                        assert(find_agent(eps0, b@.destination) < 0);
                    }
                    kept.push(BundlePack { bundle: b });
                    proof {
                        assert(kept@.map_values(|p: BundlePack| p@) =~= spec_remaining(eps0, prefix));
                        assert forall|k: int| 0 <= k < eps0.len() implies #[trigger] self@.endpoints[k].deliveries
                            == eps0[k].deliveries + spec_deliveries_to(eps0, prefix, k) by {
                            assert(self@.endpoints[k].deliveries == eps_pre[k].deliveries);
                            assert(spec_deliveries_to(eps0, prefix, k) == spec_deliveries_to(eps0, store0.take(i as int), k));
                        }
                    }
                }
            }
            i = i + 1;
        }
        self.store = SimpleBundleStore { bundles: kept };
        proof {
            assert(store0.take(n as int) =~= store0);
            assert forall|j: int| 0 <= j < eps0.len() implies self@.endpoints[j] =~= spec_process(pre).endpoints[j] by {
            }
            assert(self@.endpoints =~~= spec_process(pre).endpoints);
            assert(self@ =~~= spec_process(pre));
        }
    }
}

impl Default for DtnCore {
    /// A core whose node id is a freshly drawn ten-character alphanumeric
    /// identifier, with everything else empty.
    fn default() -> (r: Self)
        ensures
            r@.nodeid.len() == 10,
            forall|i: int| 0 <= i < r@.nodeid.len() ==> is_alphanumeric_char(#[trigger] r@.nodeid[i]),
            r@.endpoints == Seq::<AgentView>::empty(),
            r@.store == Seq::<BundleView>::empty(),
            r@.stats == (DtnStatistics { incoming: 0, dups: 0, outgoing: 0, delivered: 0, broken: 0 }),
            r@.peers == Seq::<PeerView>::empty(),
            r@.cl_list == Seq::<Seq<char>>::empty(),
    {
        DtnCore::new(random_alphanumeric_id(10))
    }
}

/// Idempotent ingestion: pushing a fresh, remotely destined bundle and then
/// pushing a bundle with the same id again raises the duplicate counter by
/// exactly one (saturating only at the top of its range), and the store
/// holds exactly one pack with that id.
pub proof fn lemma_push_idempotent(c: CoreView, b: BundleView)
    requires
        !store_has_id(c.store, b.id),
        b.fragment || !has_agent(c.endpoints, b.destination),
    ensures
        spec_push(spec_push(c, b), b).stats.dups == sat_inc(c.stats.dups),
        c.stats.dups < u64::MAX ==> spec_push(spec_push(c, b), b).stats.dups == c.stats.dups + 1,
        spec_push(spec_push(c, b), b).store == spec_push(c, b).store,
        count_id(spec_push(spec_push(c, b), b).store, b.id) == 1,
{
    let c1 = spec_push(c, b);
    assert(c1.store == c.store.push(b));
    assert(c1.store[c.store.len() as int].id == b.id);
    assert(store_has_id(c1.store, b.id));
    lemma_absent_count_zero(c.store, b.id);
    lemma_push_count(c.store, b, b.id);
}

/// Local delivery precedence: a non-fragment whose destination a registered
/// agent carries is delivered to the first such agent at once, the delivered
/// counter rises, and the store never holds the bundle.
pub proof fn lemma_local_delivery_precedence(c: CoreView, b: BundleView)
    requires
        has_agent(c.endpoints, b.destination),
        !b.fragment,
        !store_has_id(c.store, b.id),
    ensures
        spec_push(c, b).store == c.store,
        !store_has_id(spec_push(c, b).store, b.id),
        spec_push(c, b).stats.delivered == sat_inc(c.stats.delivered),
        c.stats.delivered < u64::MAX ==> spec_push(c, b).stats.delivered == c.stats.delivered + 1,
        spec_push(c, b).endpoints[find_agent(c.endpoints, b.destination)].deliveries
            == c.endpoints[find_agent(c.endpoints, b.destination)].deliveries.push(b),
{
    lemma_find_agent_props(c.endpoints, b.destination);
}

/// Every pack a processing pass keeps was already in the store.
pub proof fn lemma_remaining_membership(eps: Seq<AgentView>, store: Seq<BundleView>)
    ensures
        forall|i: int| 0 <= i < spec_remaining(eps, store).len()
            ==> exists|j: int| 0 <= j < store.len() && #[trigger] spec_remaining(eps, store)[i] == store[j],
    decreases store.len(),
{
    if store.len() > 0 {
        lemma_remaining_membership(eps, store.drop_last());
        let rem = spec_remaining(eps, store);
        let sub = spec_remaining(eps, store.drop_last());
        assert forall|i: int| 0 <= i < rem.len() implies exists|j: int| 0 <= j < store.len()
            && #[trigger] rem[i] == store[j] by {
            if has_agent(eps, store.last().destination) || i < rem.len() - 1 {
                let j = choose|j: int| 0 <= j < store.drop_last().len()
                    && #[trigger] sub[i] == store.drop_last()[j];
                assert(rem[i] == store[j]);
            } else {
                assert(rem[i] == store[store.len() - 1]);
            }
        }
    }
}

/// The store invariant is kept across `push`: a bundle enters the store
/// only after the duplicate check, so at most one pack per id remains.
pub proof fn lemma_push_keeps_ids_unique(c: CoreView, b: BundleView)
    requires
        ids_unique(c.store),
    ensures
        ids_unique(spec_push(c, b).store),
{
    let post = spec_push(c, b).store;
    if !store_has_id(c.store, b.id) && !(!b.fragment && has_agent(c.endpoints, b.destination)) {
        assert forall|i: int, j: int| 0 <= i < j < post.len() implies post[i].id != post[j].id by {
            if j == post.len() - 1 {
                assert(post[i] == c.store[i]);
                if c.store[i].id == b.id {
                    assert(store_has_id(c.store, b.id));
                }
            }
        }
    }
}

/// The store invariant is kept across `process`: dropping delivered packs
/// never introduces a duplicate id.
pub proof fn lemma_process_keeps_ids_unique(c: CoreView)
    requires
        ids_unique(c.store),
    ensures
        ids_unique(spec_process(c).store),
    decreases c.store.len(),
{
    let store = c.store;
    let eps = c.endpoints;
    if store.len() > 0 {
        let shorter = CoreView { store: store.drop_last(), ..c };
        assert(ids_unique(store.drop_last())) by {
            assert(forall|i: int| 0 <= i < store.drop_last().len() ==> store.drop_last()[i] == store[i]);
        }
        lemma_process_keeps_ids_unique(shorter);
        let rem = spec_remaining(eps, store);
        let sub = spec_remaining(eps, store.drop_last());
        lemma_remaining_membership(eps, store.drop_last());
        assert forall|i: int, j: int| 0 <= i < j < rem.len() implies rem[i].id != rem[j].id by {
            if !has_agent(eps, store.last().destination) && j == rem.len() - 1 {
                let k = choose|k: int| 0 <= k < store.drop_last().len()
                    && #[trigger] sub[i] == store.drop_last()[k];
                assert(rem[i] == store[k]);
                assert(store[k].id != store.last().id);
            } else {
                assert(rem[i] == sub[i] && rem[j] == sub[j]);
            }
        }
    }
}

/// Statistics monotonicity across `push`: no counter ever decreases, the
/// received counter always rises by one (saturating only at the top of its
/// range), and the counters `push` does not touch stay exactly as they
/// were.
pub proof fn lemma_stats_monotonic_push(c: CoreView, b: BundleView)
    ensures
        spec_push(c, b).stats.incoming == sat_inc(c.stats.incoming),
        c.stats.incoming < u64::MAX ==> spec_push(c, b).stats.incoming == c.stats.incoming + 1,
        spec_push(c, b).stats.incoming >= c.stats.incoming,
        spec_push(c, b).stats.dups >= c.stats.dups,
        spec_push(c, b).stats.delivered >= c.stats.delivered,
        spec_push(c, b).stats.outgoing == c.stats.outgoing,
        spec_push(c, b).stats.broken == c.stats.broken,
{
}

/// Statistics monotonicity across `process`: no counter ever decreases, and
/// only the delivered counter can grow.
pub proof fn lemma_stats_monotonic_process(c: CoreView)
    ensures
        spec_process(c).stats.incoming == c.stats.incoming,
        spec_process(c).stats.dups == c.stats.dups,
        spec_process(c).stats.delivered >= c.stats.delivered,
        spec_process(c).stats.outgoing == c.stats.outgoing,
        spec_process(c).stats.broken == c.stats.broken,
{
}

} // verus!
