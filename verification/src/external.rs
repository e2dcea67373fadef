//! The state machine behind the external routing strategy: pending
//! bundle-routing requests keyed by bundle id, resolved by a matching
//! response, by the timeout sweep, or by the channel closing. The channel
//! itself lives outside the core; the loop around the daemon sends the
//! packets this module hands out and feeds received packets back in.
use crate::bundle::{BundlePack, BundleView};
use crate::dispatch::sat_add;
use crate::erouting::{Packet, RequestSenderForBundle, Sender, SenderForBundleResponse, Timeout};
use vstd::prelude::*;

verus! {

/// How many seconds a request may stay pending before the sweep times it
/// out.
pub const DEFAULT_TIMEOUT_SECS: u64 = 5;

/// Mathematical image of one outstanding request.
#[verifier::ext_equal]
pub ghost struct PendingView {
    pub pack: BundleView,
    pub deadline: u64,
}

/// One outstanding bundle-routing request: the pack it asks about and the
/// moment (seconds since the Unix epoch) at which it times out.
pub struct PendingRequest {
    pub pack: BundlePack,
    pub deadline: u64,
}

impl View for PendingRequest {
    type V = PendingView;

    open spec fn view(&self) -> PendingView {
        PendingView { pack: self.pack@, deadline: self.deadline }
    }
}

/// Mathematical image of the external strategy's state.
#[verifier::ext_equal]
pub ghost struct ExternalView {
    pub connected: bool,
    pub timeout_window: u64,
    pub pending: Seq<PendingView>,
}

/// True when a request for the bundle id is outstanding.
pub open spec fn has_pending(pending: Seq<PendingView>, id: Seq<char>) -> bool {
    exists|i: int| 0 <= i < pending.len() && pending[i].pack.id == id
}

/// The outstanding requests without those for the given bundle id.
pub open spec fn remove_pending(pending: Seq<PendingView>, id: Seq<char>) -> Seq<PendingView>
    decreases pending.len(),
{
    if pending.len() == 0 {
        Seq::empty()
    } else if pending.last().pack.id == id {
        remove_pending(pending.drop_last(), id)
    } else {
        remove_pending(pending.drop_last(), id).push(pending.last())
    }
}

/// The requests the sweep at the given moment resolves: deadline reached.
pub open spec fn expired(pending: Seq<PendingView>, now: u64) -> Seq<PendingView>
    decreases pending.len(),
{
    if pending.len() == 0 {
        Seq::empty()
    } else if pending.last().deadline <= now {
        expired(pending.drop_last(), now).push(pending.last())
    } else {
        expired(pending.drop_last(), now)
    }
}

/// The requests the sweep at the given moment keeps: deadline ahead.
pub open spec fn still_pending(pending: Seq<PendingView>, now: u64) -> Seq<PendingView>
    decreases pending.len(),
{
    if pending.len() == 0 {
        Seq::empty()
    } else if pending.last().deadline <= now {
        still_pending(pending.drop_last(), now)
    } else {
        still_pending(pending.drop_last(), now).push(pending.last())
    }
}

/// The strategy that delegates the forwarding decision to an out-of-process
/// decision-maker. While the channel is down it answers like the sink
/// strategy; requests resolve asynchronously through this state machine.
pub struct ExternalRoutingAgent {
    pub connected: bool,
    pub timeout_window: u64,
    pub pending: Vec<PendingRequest>,
}

impl View for ExternalRoutingAgent {
    type V = ExternalView;

    open spec fn view(&self) -> ExternalView {
        ExternalView {
            connected: self.connected,
            timeout_window: self.timeout_window,
            pending: self.pending@.map_values(|p: PendingRequest| p@),
        }
    }
}

impl ExternalRoutingAgent {
    /// A fresh, not yet connected strategy with the default timeout window
    /// and no outstanding request.
    pub fn new() -> (r: ExternalRoutingAgent)
        ensures
            r@ == (ExternalView {
                connected: false,
                timeout_window: DEFAULT_TIMEOUT_SECS,
                pending: Seq::<PendingView>::empty(),
            }),
    {
        let r = ExternalRoutingAgent {
            connected: false,
            timeout_window: DEFAULT_TIMEOUT_SECS,
            pending: Vec::new(),
        };
        proof {
            assert(r@.pending =~= Seq::<PendingView>::empty());
            assert(r@ =~= (ExternalView {
                connected: false,
                timeout_window: DEFAULT_TIMEOUT_SECS,
                pending: Seq::<PendingView>::empty(),
            }));
        }
        r
    }

    /// Mark the channel up. The caller re-sends the full state snapshots
    /// (peer state, service state) so the external party can resynchronize.
    pub fn connect(&mut self)
        ensures
            final(self)@ == (ExternalView { connected: true, ..old(self)@ }),
    {
        self.connected = true;
        proof {
            assert(self@ =~= (ExternalView { connected: true, ..old(self)@ }));
        }
    }

    /// Whether a request for the bundle id is outstanding.
    pub fn has_request_for(&self, id: &String) -> (r: bool)
        ensures
            r == has_pending(self@.pending, id@),
    {
        let mut i: usize = 0;
        while i < self.pending.len()
            invariant
                i <= self@.pending.len(),
                self@.pending.len() == self.pending.len(),
                forall|k: int| 0 <= k < i ==> #[trigger] self@.pending[k].pack.id != id@,
            decreases self.pending.len() - i,
        {
            if self.pending[i].pack.bundle.id.eq(id) {
                proof {
                    assert(self@.pending[i as int].pack.id == id@);
                }
                return true;
            }
            i = i + 1;
        }
        proof {
            if has_pending(self@.pending, id@) {
                let j = choose|j: int| 0 <= j < self@.pending.len() && self@.pending[j].pack.id == id@;
                assert(self@.pending[j].pack.id != id@);
            }
        }
        false
    }

    /// Open a request for the pack: when the channel is up and no request
    /// for the same bundle id is outstanding, the pack enters the pending
    /// table with a deadline one timeout window ahead, and the packet to
    /// send outbound is returned. A duplicate request, or one made while
    /// the channel is down, changes nothing and returns no packet.
    pub fn start_request(&mut self, bp: &BundlePack, clas: &Vec<String>, now: u64) -> (r: Option<Packet>)
        ensures
            !old(self)@.connected || has_pending(old(self)@.pending, bp@.id) ==> (
                r is None && final(self)@ == old(self)@
            ),
            old(self)@.connected && !has_pending(old(self)@.pending, bp@.id) ==> (
                r matches Some(p)
                && (p matches Packet::RequestSenderForBundle(req)
                    && req.bp@ == bp@
                    && req.clas@.map_values(|s: String| s@) == clas@.map_values(|s: String| s@))
                && final(self)@ == (ExternalView {
                    pending: old(self)@.pending.push(PendingView {
                        pack: bp@,
                        deadline: sat_add(now, old(self)@.timeout_window as nat),
                    }),
                    ..old(self)@
                })
            ),
    {
        if !self.connected {
            return None;
        }
        if self.has_request_for(&bp.bundle.id) {
            return None;
        }
        let ghost pre = self@;
        let deadline = if now > u64::MAX - self.timeout_window {
            u64::MAX
        } else {
            now + self.timeout_window
        };
        self.pending.push(PendingRequest { pack: bp.clone(), deadline });
        let req_clas = clas.clone();
        proof {
            assert(req_clas@.map_values(|s: String| s@) =~= clas@.map_values(|s: String| s@));
            assert(self@.pending =~= pre.pending.push(PendingView {
                pack: bp@,
                deadline: sat_add(now, pre.timeout_window as nat),
            }));
            assert(self@ =~= (ExternalView {
                pending: pre.pending.push(PendingView {
                    pack: bp@,
                    deadline: sat_add(now, pre.timeout_window as nat),
                }),
                ..pre
            }));
        }
        Some(Packet::RequestSenderForBundle(RequestSenderForBundle { clas: req_clas, bp: bp.clone() }))
    }

    /// Resolve the outstanding request whose bundle id the response names:
    /// only a response with a matching embedded pack id resolves it. The
    /// senders and the delete flag of a matching response are handed back;
    /// a response that matches nothing is dropped and changes nothing.
    pub fn handle_response(&mut self, resp: SenderForBundleResponse) -> (r: Option<(Vec<Sender>, bool)>)
        ensures
            has_pending(old(self)@.pending, resp.bp@.id) ==> (
                r matches Some(d)
                && d.0@.map_values(|s: Sender| s@) == resp.clas@.map_values(|s: Sender| s@)
                && d.1 == resp.delete_afterwards
                && final(self)@ == (ExternalView {
                    pending: remove_pending(old(self)@.pending, resp.bp@.id),
                    ..old(self)@
                })
            ),
            !has_pending(old(self)@.pending, resp.bp@.id) ==> (
                r is None && final(self)@ == old(self)@
            ),
    {
        if !self.has_request_for(&resp.bp.bundle.id) {
            return None;
        }
        let ghost pre = self@;
        let bid = resp.bp.bundle.id;
        let mut kept: Vec<PendingRequest> = Vec::new();
        let mut i: usize = 0;
        while i < self.pending.len()
            invariant
                i <= self@.pending.len(),
                self@ == pre,
                self@.pending.len() == self.pending.len(),
                kept@.map_values(|p: PendingRequest| p@) == remove_pending(pre.pending.take(i as int), bid@),
            decreases self.pending.len() - i,
        {
            let ghost prefix = pre.pending.take(i + 1 as int);
            proof {
                assert(prefix.drop_last() =~= pre.pending.take(i as int));
                assert(prefix.last() == pre.pending[i as int]);
            }
            if !self.pending[i].pack.bundle.id.eq(&bid) {
                let p = PendingRequest {
                    pack: self.pending[i].pack.clone(),
                    deadline: self.pending[i].deadline,
                };
                kept.push(p);
            }
            proof {
                assert(kept@.map_values(|p: PendingRequest| p@) =~= remove_pending(prefix, bid@));
            }
            i = i + 1;
        }
        self.pending = kept;
        proof {
            assert(pre.pending.take(pre.pending.len() as int) =~= pre.pending);
            assert(self@ =~= (ExternalView { pending: remove_pending(pre.pending, bid@), ..pre }));
        }
        Some((resp.clas, resp.delete_afterwards))
    }

    /// Feed one received packet into the state machine: only a
    /// sender-for-bundle response can resolve a request; every other packet
    /// is dropped and the channel stays open.
    pub fn handle_packet(&mut self, packet: Packet) -> (r: Option<(Vec<Sender>, bool)>)
        ensures
            (packet matches Packet::SenderForBundleResponse(resp)
                && has_pending(old(self)@.pending, resp.bp@.id)) ==> (
                r is Some && final(self)@ == (ExternalView {
                    pending: remove_pending(old(self)@.pending, packet->SenderForBundleResponse_0.bp@.id),
                    ..old(self)@
                })
            ),
            !(packet matches Packet::SenderForBundleResponse(resp)
                && has_pending(old(self)@.pending, resp.bp@.id)) ==> (
                r is None && final(self)@ == old(self)@
            ),
    {
        match packet {
            Packet::SenderForBundleResponse(resp) => self.handle_response(resp),
            _ => None,
        }
    }

    /// Time out every request whose deadline has been reached: those leave
    /// the pending table and come back as timeout packets carrying the
    /// original pack, in table order.
    pub fn sweep_timeouts(&mut self, now: u64) -> (r: Vec<Timeout>)
        ensures
            final(self)@ == (ExternalView { pending: still_pending(old(self)@.pending, now), ..old(self)@ }),
            r@.map_values(|t: Timeout| t.bp@) == expired(old(self)@.pending, now).map_values(|p: PendingView| p.pack),
    {
        let ghost pre = self@;
        let mut kept: Vec<PendingRequest> = Vec::new();
        let mut out: Vec<Timeout> = Vec::new();
        let mut i: usize = 0;
        while i < self.pending.len()
            invariant
                i <= self@.pending.len(),
                self@ == pre,
                self@.pending.len() == self.pending.len(),
                kept@.map_values(|p: PendingRequest| p@) == still_pending(pre.pending.take(i as int), now),
                out@.len() == expired(pre.pending.take(i as int), now).len(),
                forall|k: int| 0 <= k < out@.len() ==> #[trigger] out@[k].bp@
                    == expired(pre.pending.take(i as int), now)[k].pack,
            decreases self.pending.len() - i,
        {
            let ghost prefix = pre.pending.take(i + 1 as int);
            proof {
                assert(prefix.drop_last() =~= pre.pending.take(i as int));
                assert(prefix.last() == pre.pending[i as int]);
            }
            let ghost out_pre = out@;
            if self.pending[i].deadline <= now {
                out.push(Timeout { bp: self.pending[i].pack.clone() });
                proof {
                    assert(expired(prefix, now)
                        =~= expired(pre.pending.take(i as int), now).push(pre.pending[i as int]));
                    assert forall|k: int| 0 <= k < out@.len() implies #[trigger] out@[k].bp@
                        == expired(prefix, now)[k].pack by {
                        if k < out@.len() - 1 {
                            assert(out@[k] == out_pre[k]);
                        }
                    }
                }
            } else {
                let p = PendingRequest {
                    pack: self.pending[i].pack.clone(),
                    deadline: self.pending[i].deadline,
                };
                kept.push(p);
            }
            proof {
                assert(kept@.map_values(|p: PendingRequest| p@) =~= still_pending(prefix, now));
            }
            i = i + 1;
        }
        self.pending = kept;
        proof {
            assert(pre.pending.take(pre.pending.len() as int) =~= pre.pending);
            assert(self@ =~= (ExternalView { pending: still_pending(pre.pending, now), ..pre }));
            assert(out@.map_values(|t: Timeout| t.bp@)
                =~= expired(pre.pending, now).map_values(|p: PendingView| p.pack));
        }
        out
    }

    /// The channel closed: every outstanding request times out at once, and
    /// the strategy behaves like the sink strategy until reconnected.
    pub fn connection_closed(&mut self) -> (r: Vec<Timeout>)
        ensures
            final(self)@ == (ExternalView {
                connected: false,
                pending: Seq::<PendingView>::empty(),
                ..old(self)@
            }),
            r@.map_values(|t: Timeout| t.bp@) == old(self)@.pending.map_values(|p: PendingView| p.pack),
    {
        let ghost pre = self@;
        self.connected = false;
        let mut out: Vec<Timeout> = Vec::new();
        let mut i: usize = 0;
        while i < self.pending.len()
            invariant
                i <= self@.pending.len(),
                self@.pending == pre.pending,
                self@.timeout_window == pre.timeout_window,
                self@.pending.len() == self.pending.len(),
                out@.len() == i,
                forall|k: int| 0 <= k < i ==> #[trigger] out@[k].bp@ == pre.pending[k].pack,
            decreases self.pending.len() - i,
        {
            out.push(Timeout { bp: self.pending[i].pack.clone() });
            i = i + 1;
        }
        self.pending = Vec::new();
        proof {
            assert(self@.pending =~= Seq::<PendingView>::empty());
            assert(self@ =~= (ExternalView {
                connected: false,
                pending: Seq::<PendingView>::empty(),
                ..pre
            }));
            assert(out@.map_values(|t: Timeout| t.bp@) =~= pre.pending.map_values(|p: PendingView| p.pack));
        }
        out
    }

    /// While the channel is down, or until a response resolves a request,
    /// the strategy contributes no senders and never deletes.
    pub fn sender_for_bundle(&self, _bp: &BundlePack) -> (r: (Vec<Sender>, bool))
        ensures
            r.0@.len() == 0,
            r.1 == false,
    {
        (Vec::new(), false)
    }
}

/// What a synthesized timeout resolves to: no senders, do not delete.
pub fn timeout_result(_t: &Timeout) -> (r: (Vec<Sender>, bool))
    ensures
        r.0@.len() == 0,
        r.1 == false,
{
    (Vec::new(), false)
}

/// The request-table invariant: at most one outstanding request per bundle
/// id.
pub open spec fn pending_ids_unique(pending: Seq<PendingView>) -> bool {
    forall|i: int, j: int| 0 <= i < j < pending.len() ==> pending[i].pack.id != pending[j].pack.id
}

/// Opening a request keeps the one-request-per-id invariant: a request is
/// only opened while no request for its bundle id is outstanding.
pub proof fn lemma_start_request_keeps_one_per_id(pending: Seq<PendingView>, p: PendingView)
    requires
        pending_ids_unique(pending),
        !has_pending(pending, p.pack.id),
    ensures
        pending_ids_unique(pending.push(p)),
{
    let post = pending.push(p);
    assert forall|i: int, j: int| 0 <= i < j < post.len() implies post[i].pack.id != post[j].pack.id by {
        if j == post.len() - 1 {
            assert(post[i] == pending[i]);
            if pending[i].pack.id == p.pack.id {
                assert(has_pending(pending, p.pack.id));
            }
        }
    }
}

/// Every request that survives a resolution was already outstanding.
pub proof fn lemma_remove_pending_membership(pending: Seq<PendingView>, id: Seq<char>)
    ensures
        forall|i: int| 0 <= i < remove_pending(pending, id).len()
            ==> exists|j: int| 0 <= j < pending.len() && #[trigger] remove_pending(pending, id)[i] == pending[j],
    decreases pending.len(),
{
    if pending.len() > 0 {
        lemma_remove_pending_membership(pending.drop_last(), id);
        let out = remove_pending(pending, id);
        let sub = remove_pending(pending.drop_last(), id);
        assert forall|i: int| 0 <= i < out.len() implies exists|j: int| 0 <= j < pending.len()
            && #[trigger] out[i] == pending[j] by {
            if pending.last().pack.id == id || i < out.len() - 1 {
                let j = choose|j: int| 0 <= j < pending.drop_last().len()
                    && #[trigger] sub[i] == pending.drop_last()[j];
                assert(out[i] == pending[j]);
            } else {
                assert(out[i] == pending[pending.len() - 1]);
            }
        }
    }
}

/// Resolving a request keeps the one-request-per-id invariant.
pub proof fn lemma_resolve_keeps_one_per_id(pending: Seq<PendingView>, id: Seq<char>)
    requires
        pending_ids_unique(pending),
    ensures
        pending_ids_unique(remove_pending(pending, id)),
    decreases pending.len(),
{
    if pending.len() > 0 {
        assert(pending_ids_unique(pending.drop_last())) by {
            assert(forall|i: int| 0 <= i < pending.drop_last().len()
                ==> pending.drop_last()[i] == pending[i]);
        }
        lemma_resolve_keeps_one_per_id(pending.drop_last(), id);
        lemma_remove_pending_membership(pending.drop_last(), id);
        let out = remove_pending(pending, id);
        let sub = remove_pending(pending.drop_last(), id);
        assert forall|i: int, j: int| 0 <= i < j < out.len() implies out[i].pack.id != out[j].pack.id by {
            if pending.last().pack.id != id && j == out.len() - 1 {
                let k = choose|k: int| 0 <= k < pending.drop_last().len()
                    && #[trigger] sub[i] == pending.drop_last()[k];
                assert(out[i] == pending[k]);
                assert(pending[k].pack.id != pending.last().pack.id);
            } else {
                assert(out[i] == sub[i] && out[j] == sub[j]);
            }
        }
    }
}

/// The timeout sweep keeps the one-request-per-id invariant.
pub proof fn lemma_sweep_keeps_one_per_id(pending: Seq<PendingView>, now: u64)
    requires
        pending_ids_unique(pending),
    ensures
        pending_ids_unique(still_pending(pending, now)),
    decreases pending.len(),
{
    if pending.len() > 0 {
        assert(pending_ids_unique(pending.drop_last())) by {
            assert(forall|i: int| 0 <= i < pending.drop_last().len()
                ==> pending.drop_last()[i] == pending[i]);
        }
        lemma_sweep_keeps_one_per_id(pending.drop_last(), now);
        lemma_still_pending_membership(pending.drop_last(), now);
        let out = still_pending(pending, now);
        let sub = still_pending(pending.drop_last(), now);
        assert forall|i: int, j: int| 0 <= i < j < out.len() implies out[i].pack.id != out[j].pack.id by {
            if pending.last().deadline > now && j == out.len() - 1 {
                let k = choose|k: int| 0 <= k < pending.drop_last().len()
                    && #[trigger] sub[i] == pending.drop_last()[k];
                assert(out[i] == pending[k]);
                assert(pending[k].pack.id != pending.last().pack.id);
            } else {
                assert(out[i] == sub[i] && out[j] == sub[j]);
            }
        }
    }
}

/// Every request the sweep keeps was already outstanding.
pub proof fn lemma_still_pending_membership(pending: Seq<PendingView>, now: u64)
    ensures
        forall|i: int| 0 <= i < still_pending(pending, now).len()
            ==> exists|j: int| 0 <= j < pending.len() && #[trigger] still_pending(pending, now)[i] == pending[j],
    decreases pending.len(),
{
    if pending.len() > 0 {
        lemma_still_pending_membership(pending.drop_last(), now);
        let out = still_pending(pending, now);
        let sub = still_pending(pending.drop_last(), now);
        assert forall|i: int| 0 <= i < out.len() implies exists|j: int| 0 <= j < pending.len()
            && #[trigger] out[i] == pending[j] by {
            if pending.last().deadline <= now || i < out.len() - 1 {
                let j = choose|j: int| 0 <= j < pending.drop_last().len()
                    && #[trigger] sub[i] == pending.drop_last()[j];
                assert(out[i] == pending[j]);
            } else {
                assert(out[i] == pending[pending.len() - 1]);
            }
        }
    }
}

/// Appending one request changes what is pending only by that request's
/// own bundle id.
pub proof fn lemma_has_pending_push(pending: Seq<PendingView>, p: PendingView, id: Seq<char>)
    ensures
        has_pending(pending.push(p), id) == (has_pending(pending, id) || p.pack.id == id),
{
    let out = pending.push(p);
    if has_pending(out, id) {
        let j = choose|j: int| 0 <= j < out.len() && out[j].pack.id == id;
        if j < out.len() - 1 {
            assert(pending[j].pack.id == id);
        }
    }
    if has_pending(pending, id) {
        let j = choose|j: int| 0 <= j < pending.len() && pending[j].pack.id == id;
        assert(out[j].pack.id == id);
    }
    if p.pack.id == id {
        assert(out[out.len() - 1].pack.id == id);
    }
}

/// Request/response correlation: a response for one bundle id never
/// resolves the outstanding request of another; that request stays pending.
pub proof fn lemma_response_correlation(pending: Seq<PendingView>, kept_id: Seq<char>, resolved_id: Seq<char>)
    requires
        kept_id != resolved_id,
    ensures
        has_pending(remove_pending(pending, resolved_id), kept_id) == has_pending(pending, kept_id),
    decreases pending.len(),
{
    if pending.len() > 0 {
        lemma_response_correlation(pending.drop_last(), kept_id, resolved_id);
        assert(pending =~= pending.drop_last().push(pending.last()));
        lemma_has_pending_push(pending.drop_last(), pending.last(), kept_id);
        if pending.last().pack.id != resolved_id {
            lemma_has_pending_push(remove_pending(pending.drop_last(), resolved_id), pending.last(), kept_id);
        }
    }
}

/// A resolved request leaves the pending table entirely.
pub proof fn lemma_resolved_gone(pending: Seq<PendingView>, id: Seq<char>)
    ensures
        !has_pending(remove_pending(pending, id), id),
    decreases pending.len(),
{
    if pending.len() > 0 {
        lemma_resolved_gone(pending.drop_last(), id);
        let out = remove_pending(pending, id);
        if has_pending(out, id) {
            let j = choose|j: int| 0 <= j < out.len() && out[j].pack.id == id;
            if pending.last().pack.id != id {
                if j < out.len() - 1 {
                    assert(remove_pending(pending.drop_last(), id)[j].pack.id == id);
                }
            }
        }
    }
}

/// External timeout: every request whose deadline the sweep moment has
/// reached yields a timeout packet that carries its original pack, and no
/// such request stays pending.
pub proof fn lemma_timeout_emits(pending: Seq<PendingView>, now: u64, i: int)
    requires
        0 <= i < pending.len(),
        pending[i].deadline <= now,
    ensures
        exists|k: int| 0 <= k < expired(pending, now).len() && expired(pending, now)[k] == pending[i],
        forall|k: int| 0 <= k < still_pending(pending, now).len()
            ==> #[trigger] still_pending(pending, now)[k].deadline > now,
    decreases pending.len(),
{
    lemma_still_pending_ahead(pending, now);
    if i == pending.len() - 1 {
        let out = expired(pending, now);
        assert(out == expired(pending.drop_last(), now).push(pending.last()));
        assert(out[out.len() - 1] == pending[i]);
    } else {
        assert(pending.drop_last()[i] == pending[i]);
        lemma_timeout_emits(pending.drop_last(), now, i);
        let k = choose|k: int| 0 <= k < expired(pending.drop_last(), now).len()
            && expired(pending.drop_last(), now)[k] == pending[i];
        if pending.last().deadline <= now {
            assert(expired(pending, now)[k] == pending[i]);
        } else {
            assert(expired(pending, now) == expired(pending.drop_last(), now));
            assert(expired(pending, now)[k] == pending[i]);
        }
    }
}

/// Every request the sweep keeps has its deadline ahead of the sweep
/// moment.
pub proof fn lemma_still_pending_ahead(pending: Seq<PendingView>, now: u64)
    ensures
        forall|k: int| 0 <= k < still_pending(pending, now).len()
            ==> #[trigger] still_pending(pending, now)[k].deadline > now,
    decreases pending.len(),
{
    if pending.len() > 0 {
        lemma_still_pending_ahead(pending.drop_last(), now);
        let out = still_pending(pending, now);
        let sub = still_pending(pending.drop_last(), now);
        assert forall|k: int| 0 <= k < out.len() implies out[k].deadline > now by {
            if pending.last().deadline <= now {
                assert(out[k] == sub[k]);
            } else if k < out.len() - 1 {
                assert(out[k] == sub[k]);
            }
        }
    }
}

} // verus!
