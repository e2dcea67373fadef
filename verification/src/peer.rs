//! Known neighbors: peer metadata and the registry that maps a network
//! address to it. The registry is the single authoritative view of the
//! neighborhood; every entry is keyed by its unique address.
use crate::sys::unix_timestamp_now;
use vstd::prelude::*;

verus! {

/// How a peer became known: configured statically or discovered at runtime.
#[derive(Clone, Copy, Debug, PartialEq, Eq, Structural)]
pub enum PeerType {
    Static,
    Dynamic,
}

/// Mathematical image of a peer entry.
#[verifier::ext_equal]
pub ghost struct PeerView {
    pub eid: Option<Seq<char>>,
    pub addr: Seq<char>,
    pub con_type: PeerType,
    pub cl_list: Seq<Seq<char>>,
    pub last_contact: u64,
}

/// A neighbor: optional endpoint id (unknown for freshly discovered peers),
/// network address (the registry key), connection type, the names of the
/// convergence-layer agents it advertises, and the last-contact time in
/// seconds since the Unix epoch.
pub struct DtnPeer {
    pub eid: Option<String>,
    pub addr: String,
    pub con_type: PeerType,
    pub cl_list: Vec<String>,
    pub last_contact: u64,
}

/// The view of an optional endpoint id.
pub open spec fn opt_eid_view(eid: Option<String>) -> Option<Seq<char>> {
    match eid {
        Some(e) => Some(e@),
        None => None,
    }
}

impl View for DtnPeer {
    type V = PeerView;

    open spec fn view(&self) -> PeerView {
        PeerView {
            eid: opt_eid_view(self.eid),
            addr: self.addr@,
            con_type: self.con_type,
            cl_list: self.cl_list@.map_values(|s: String| s@),
            last_contact: self.last_contact,
        }
    }
}

impl DtnPeer {
    /// A peer first seen at the given moment (seconds since the Unix
    /// epoch): every field exactly as given.
    pub fn with_last_contact(
        eid: Option<String>,
        addr: String,
        con_type: PeerType,
        cl_list: Vec<String>,
        now: u64,
    ) -> (r: DtnPeer)
        ensures
            r@ == (PeerView {
                eid: opt_eid_view(eid),
                addr: addr@,
                con_type: con_type,
                cl_list: cl_list@.map_values(|s: String| s@),
                last_contact: now,
            }),
    {
        let r = DtnPeer { eid, addr, con_type, cl_list, last_contact: now };
        proof {
            assert(r@ =~= (PeerView {
                eid: opt_eid_view(r.eid),
                addr: r.addr@,
                con_type: r.con_type,
                cl_list: r.cl_list@.map_values(|s: String| s@),
                last_contact: now,
            }));
        }
        r
    }

    /// A peer first seen now: all fields as given, the last-contact time
    /// read from the clock.
    pub fn new(eid: Option<String>, addr: String, con_type: PeerType, cl_list: Vec<String>) -> (r: DtnPeer)
        ensures
            r@.eid == opt_eid_view(eid),
            r@.addr == addr@,
            r@.con_type == con_type,
            r@.cl_list == cl_list@.map_values(|s: String| s@),
    {
        let now = unix_timestamp_now();
        DtnPeer::with_last_contact(eid, addr, con_type, cl_list, now)
    }

    /// Record a contact observed at the given moment: the last-contact time
    /// becomes that moment and nothing else changes.
    pub fn touch_at(&mut self, now: u64)
        ensures
            final(self)@ == (PeerView { last_contact: now, ..old(self)@ }),
    {
        self.last_contact = now;
        proof {
            assert(self@ =~= (PeerView { last_contact: now, ..old(self)@ }));
        }
    }

    /// Record a fresh contact at the clock's current reading; only the
    /// last-contact time changes.
    pub fn touch(&mut self)
        ensures
            final(self)@ == (PeerView { last_contact: final(self)@.last_contact, ..old(self)@ }),
    {
        let now = unix_timestamp_now();
        self.touch_at(now);
    }

    /// The first convergence-layer agent this peer advertises, if any.
    pub fn first_cla(&self) -> (r: Option<String>)
        ensures
            self@.cl_list.len() > 0 ==> (r matches Some(c) && c@ == self@.cl_list[0]),
            self@.cl_list.len() == 0 ==> r is None,
    {
        if self.cl_list.len() > 0 {
            Some(self.cl_list[0].clone())
        } else {
            None
        }
    }
}

impl Clone for DtnPeer {
    fn clone(&self) -> (r: Self)
        ensures
            r@ == self@,
    {
        let cl_list = self.cl_list.clone();
        proof {
            assert(cl_list@ =~= self.cl_list@);
        }
        let eid = match &self.eid {
            Some(e) => Some(e.clone()),
            None => None,
        };
        let r = DtnPeer {
            eid,
            addr: self.addr.clone(),
            con_type: self.con_type,
            cl_list,
            last_contact: self.last_contact,
        };
        proof {
            assert(r@ =~= self@);
        }
        r
    }
}

/// True when some entry carries the given address.
pub open spec fn has_addr(peers: Seq<PeerView>, addr: Seq<char>) -> bool {
    exists|i: int| 0 <= i < peers.len() && peers[i].addr == addr
}

/// True when some entry carries the given endpoint id.
pub open spec fn has_eid(peers: Seq<PeerView>, eid: Seq<char>) -> bool {
    exists|i: int| 0 <= i < peers.len() && peers[i].eid == Some(eid)
}

/// The index of the first entry with the given address, or -1.
pub open spec fn find_peer(peers: Seq<PeerView>, addr: Seq<char>) -> int
    decreases peers.len(),
{
    if peers.len() == 0 {
        -1
    } else if peers[0].addr == addr {
        0
    } else if find_peer(peers.drop_first(), addr) < 0 {
        -1
    } else {
        1 + find_peer(peers.drop_first(), addr)
    }
}

/// What `find_peer` returns: -1 exactly when the address is absent, and
/// otherwise the first index that carries it.
pub proof fn lemma_find_peer_props(peers: Seq<PeerView>, addr: Seq<char>)
    ensures
        find_peer(peers, addr) < 0 <==> !has_addr(peers, addr),
        find_peer(peers, addr) >= 0 ==> 0 <= find_peer(peers, addr) < peers.len()
            && peers[find_peer(peers, addr)].addr == addr
            && (forall|k: int| 0 <= k < find_peer(peers, addr) ==> peers[k].addr != addr),
    decreases peers.len(),
{
    if peers.len() > 0 && peers[0].addr != addr {
        lemma_find_peer_props(peers.drop_first(), addr);
        assert(forall|i: int| 0 < i < peers.len() ==> peers[i] == peers.drop_first()[i - 1]);
        if !has_addr(peers.drop_first(), addr) {
            assert forall|i: int| 0 <= i < peers.len() implies peers[i].addr != addr by {
                if i > 0 {
                    assert(peers.drop_first()[i - 1] == peers[i]);
                }
            }
        } else {
            let j = choose|j: int| 0 <= j < peers.drop_first().len() && peers.drop_first()[j].addr == addr;
            assert(peers[j + 1].addr == addr);
        }
    }
}

/// The registry without the entries that carry the given address.
pub open spec fn remove_addr(peers: Seq<PeerView>, addr: Seq<char>) -> Seq<PeerView>
    decreases peers.len(),
{
    if peers.len() == 0 {
        Seq::empty()
    } else if peers.last().addr == addr {
        remove_addr(peers.drop_last(), addr)
    } else {
        remove_addr(peers.drop_last(), addr).push(peers.last())
    }
}

/// The registry without the entries that carry the given endpoint id.
pub open spec fn remove_eid(peers: Seq<PeerView>, eid: Seq<char>) -> Seq<PeerView>
    decreases peers.len(),
{
    if peers.len() == 0 {
        Seq::empty()
    } else if peers.last().eid == Some(eid) {
        remove_eid(peers.drop_last(), eid)
    } else {
        remove_eid(peers.drop_last(), eid).push(peers.last())
    }
}

/// What upsert leaves behind: the first entry with the peer's address
/// replaced by the new peer, or the peer appended when its address is new.
pub open spec fn upsert_peer(peers: Seq<PeerView>, p: PeerView) -> Seq<PeerView> {
    if has_addr(peers, p.addr) {
        peers.update(find_peer(peers, p.addr), p)
    } else {
        peers.push(p)
    }
}

/// The live view of the neighborhood, keyed by network address.
pub struct PeerRegistry {
    pub entries: Vec<DtnPeer>,
}

impl View for PeerRegistry {
    type V = Seq<PeerView>;

    open spec fn view(&self) -> Seq<PeerView> {
        self.entries@.map_values(|p: DtnPeer| p@)
    }
}

impl PeerRegistry {
    /// An empty registry.
    pub fn new() -> (r: PeerRegistry)
        ensures
            r@ == Seq::<PeerView>::empty(),
    {
        let r = PeerRegistry { entries: Vec::new() };
        proof {
            assert(r@ =~= Seq::<PeerView>::empty());
        }
        r
    }

    /// The index of the first entry with the given address, if any.
    fn position_of(&self, addr: &String) -> (r: Option<usize>)
        ensures
            r matches Some(i) ==> i == find_peer(self@, addr@) && i < self@.len()
                && self@[i as int].addr == addr@ && has_addr(self@, addr@),
            r is None ==> !has_addr(self@, addr@) && find_peer(self@, addr@) < 0,
    {
        proof {
            lemma_find_peer_props(self@, addr@);
        }
        let mut i: usize = 0;
        while i < self.entries.len()
            invariant
                i <= self@.len(),
                forall|k: int| 0 <= k < i ==> self@[k].addr != addr@,
                find_peer(self@, addr@) < 0 <==> !has_addr(self@, addr@),
                find_peer(self@, addr@) >= 0 ==> 0 <= find_peer(self@, addr@) < self@.len()
                    && self@[find_peer(self@, addr@)].addr == addr@
                    && (forall|k: int| 0 <= k < find_peer(self@, addr@) ==> self@[k].addr != addr@),
            decreases self.entries.len() - i,
        {
            if self.entries[i].addr.eq(addr) {
                proof {
                    assert(self@[i as int].addr == addr@);
                    assert(has_addr(self@, addr@));
                    let f = find_peer(self@, addr@);
                    assert(f >= 0);
                    assert(!(f < i) && !(i < f));
                }
                return Some(i);
            }
            i = i + 1;
        }
        proof {
            if has_addr(self@, addr@) {
                let j = choose|j: int| 0 <= j < self@.len() && self@[j].addr == addr@;
                assert(self@[j].addr != addr@);
            }
        }
        None
    }

    /// Insert the peer, or replace the entry that already carries its
    /// address.
    pub fn upsert(&mut self, p: DtnPeer)
        ensures
            final(self)@ == upsert_peer(old(self)@, p@),
    {
        let ghost pre = self@;
        let addr = p.addr.clone();
        match self.position_of(&addr) {
            Some(i) => {
                let slot = &mut self.entries[i];
                *slot = p;
                proof {
                    assert(self@ =~= pre.update(find_peer(pre, addr@), p@));
                }
            }
            None => {
                self.entries.push(p);
                proof {
                    assert(self@ =~= pre.push(p@));
                }
            }
        }
    }

    /// Record a contact observed at the given moment for the peer at the
    /// address: its last-contact time becomes that moment; every other
    /// entry, and every other field, is kept. An unknown address changes
    /// nothing.
    pub fn touch_at(&mut self, addr: &String, now: u64)
        ensures
            final(self)@.len() == old(self)@.len(),
            forall|i: int| 0 <= i < old(self)@.len() && i != find_peer(old(self)@, addr@)
                ==> final(self)@[i] == old(self)@[i],
            has_addr(old(self)@, addr@) ==> final(self)@[find_peer(old(self)@, addr@)]
                == (PeerView { last_contact: now, ..old(self)@[find_peer(old(self)@, addr@)] }),
    {
        let ghost pre = self@;
        match self.position_of(addr) {
            Some(i) => {
                let slot = &mut self.entries[i];
                slot.touch_at(now);
            }
            None => {
                proof {
                    lemma_find_peer_props(pre, addr@);
                }
            }
        }
    }

    /// Record a fresh contact at the clock's current reading for the peer
    /// at the given address; every other entry, and every field but the
    /// last-contact time, is kept.
    pub fn touch(&mut self, addr: &String)
        ensures
            final(self)@.len() == old(self)@.len(),
            forall|i: int| 0 <= i < old(self)@.len() && i != find_peer(old(self)@, addr@)
                ==> final(self)@[i] == old(self)@[i],
            has_addr(old(self)@, addr@) ==> final(self)@[find_peer(old(self)@, addr@)]
                == (PeerView {
                    last_contact: final(self)@[find_peer(old(self)@, addr@)].last_contact,
                    ..old(self)@[find_peer(old(self)@, addr@)]
                }),
    {
        let now = unix_timestamp_now();
        self.touch_at(addr, now);
    }

    /// Drop every entry with the given address.
    pub fn remove(&mut self, addr: &String)
        ensures
            final(self)@ == remove_addr(old(self)@, addr@),
    {
        let ghost pre = self@;
        let mut kept: Vec<DtnPeer> = Vec::new();
        let mut i: usize = 0;
        while i < self.entries.len()
            invariant
                i <= self@.len(),
                self@ == pre,
                kept@.map_values(|p: DtnPeer| p@) == remove_addr(pre.take(i as int), addr@),
            decreases self.entries.len() - i,
        {
            let ghost prefix = pre.take(i + 1 as int);
            proof {
                assert(prefix.drop_last() =~= pre.take(i as int));
                assert(prefix.last() == pre[i as int]);
            }
            if !self.entries[i].addr.eq(addr) {
                let p = self.entries[i].clone();
                kept.push(p);
            }
            proof {
                assert(kept@.map_values(|p: DtnPeer| p@) =~= remove_addr(prefix, addr@));
            }
            i = i + 1;
        }
        self.entries = kept;
        proof {
            assert(pre.take(pre.len() as int) =~= pre);
        }
    }

    /// Drop every entry with the given endpoint id.
    pub fn remove_by_eid(&mut self, eid: &String)
        ensures
            final(self)@ == remove_eid(old(self)@, eid@),
    {
        let ghost pre = self@;
        let mut kept: Vec<DtnPeer> = Vec::new();
        let mut i: usize = 0;
        while i < self.entries.len()
            invariant
                i <= self@.len(),
                self@ == pre,
                kept@.map_values(|p: DtnPeer| p@) == remove_eid(pre.take(i as int), eid@),
            decreases self.entries.len() - i,
        {
            let ghost prefix = pre.take(i + 1 as int);
            proof {
                assert(prefix.drop_last() =~= pre.take(i as int));
                assert(prefix.last() == pre[i as int]);
            }
            let matches_eid = match &self.entries[i].eid {
                Some(e) => e.eq(eid),
                None => false,
            };
            if !matches_eid {
                let p = self.entries[i].clone();
                kept.push(p);
            }
            proof {
                assert(kept@.map_values(|p: DtnPeer| p@) =~= remove_eid(prefix, eid@));
            }
            i = i + 1;
        }
        self.entries = kept;
        proof {
            assert(pre.take(pre.len() as int) =~= pre);
        }
    }

    /// A point-in-time snapshot of all entries, in registry order.
    pub fn iter(&self) -> (r: &Vec<DtnPeer>)
        ensures
            r@.map_values(|p: DtnPeer| p@) == self@,
    {
        &self.entries
    }

    /// How many peers are known.
    pub fn len(&self) -> (r: usize)
        ensures
            r == self@.len(),
    {
        self.entries.len()
    }

    /// The first convergence-layer agent advertised by the peer at the
    /// given address, if that peer exists and advertises one.
    pub fn first_cla(&self, addr: &String) -> (r: Option<String>)
        ensures
            ({
                let f = find_peer(self@, addr@);
                ((r matches Some(c) ==> f >= 0 && self@[f].cl_list.len() > 0 && c@ == self@[f].cl_list[0])
                && (r is None ==> f < 0 || self@[f].cl_list.len() == 0))
            }),
    {
        match self.position_of(addr) {
            Some(i) => self.entries[i].first_cla(),
            None => {
                proof {
                    lemma_find_peer_props(self@, addr@);
                }
                None
            }
        }
    }
}

/// The registry invariant: the address is unique per entry.
pub open spec fn addrs_unique(peers: Seq<PeerView>) -> bool {
    forall|i: int, j: int| 0 <= i < j < peers.len() ==> peers[i].addr != peers[j].addr
}

/// Upsert keeps the unique-address invariant: it replaces the entry that
/// already carries the address, or appends a peer whose address is new.
pub proof fn lemma_upsert_keeps_addrs_unique(peers: Seq<PeerView>, p: PeerView)
    requires
        addrs_unique(peers),
    ensures
        addrs_unique(upsert_peer(peers, p)),
{
    let post = upsert_peer(peers, p);
    if has_addr(peers, p.addr) {
        lemma_find_peer_props(peers, p.addr);
        let f = find_peer(peers, p.addr);
        assert forall|i: int, j: int| 0 <= i < j < post.len() implies post[i].addr != post[j].addr by {
            if i == f {
                assert(post[i].addr == peers[f].addr && post[j] == peers[j]);
            } else if j == f {
                assert(post[j].addr == peers[f].addr && post[i] == peers[i]);
            } else {
                assert(post[i] == peers[i] && post[j] == peers[j]);
            }
        }
    } else {
        assert forall|i: int, j: int| 0 <= i < j < post.len() implies post[i].addr != post[j].addr by {
            if j == post.len() - 1 {
                assert(post[i] == peers[i]);
                if peers[i].addr == p.addr {
                    assert(has_addr(peers, p.addr));
                }
            }
        }
    }
}

/// Every entry that survives a removal was already registered.
pub proof fn lemma_remove_eid_membership(peers: Seq<PeerView>, eid: Seq<char>)
    ensures
        forall|i: int| 0 <= i < remove_eid(peers, eid).len()
            ==> exists|j: int| 0 <= j < peers.len() && #[trigger] remove_eid(peers, eid)[i] == peers[j],
    decreases peers.len(),
{
    if peers.len() > 0 {
        lemma_remove_eid_membership(peers.drop_last(), eid);
        let out = remove_eid(peers, eid);
        let sub = remove_eid(peers.drop_last(), eid);
        assert forall|i: int| 0 <= i < out.len() implies exists|j: int| 0 <= j < peers.len()
            && #[trigger] out[i] == peers[j] by {
            if peers.last().eid == Some(eid) || i < out.len() - 1 {
                let j = choose|j: int| 0 <= j < peers.drop_last().len()
                    && #[trigger] sub[i] == peers.drop_last()[j];
                assert(out[i] == peers[j]);
            } else {
                assert(out[i] == peers[peers.len() - 1]);
            }
        }
    }
}

/// Dropping a peer by endpoint id keeps the unique-address invariant.
pub proof fn lemma_remove_eid_keeps_addrs_unique(peers: Seq<PeerView>, eid: Seq<char>)
    requires
        addrs_unique(peers),
    ensures
        addrs_unique(remove_eid(peers, eid)),
    decreases peers.len(),
{
    if peers.len() > 0 {
        assert(addrs_unique(peers.drop_last())) by {
            assert(forall|i: int| 0 <= i < peers.drop_last().len() ==> peers.drop_last()[i] == peers[i]);
        }
        lemma_remove_eid_keeps_addrs_unique(peers.drop_last(), eid);
        lemma_remove_eid_membership(peers.drop_last(), eid);
        let out = remove_eid(peers, eid);
        let sub = remove_eid(peers.drop_last(), eid);
        assert forall|i: int, j: int| 0 <= i < j < out.len() implies out[i].addr != out[j].addr by {
            if peers.last().eid != Some(eid) && j == out.len() - 1 {
                let k = choose|k: int| 0 <= k < peers.drop_last().len()
                    && #[trigger] sub[i] == peers.drop_last()[k];
                assert(out[i] == peers[k]);
                assert(peers[k].addr != peers.last().addr);
            } else {
                assert(out[i] == sub[i] && out[j] == sub[j]);
            }
        }
    }
}

/// No entry of a registry survives `remove_addr` with its own address: once
/// an address is removed, no lookup or snapshot sees it again.
pub proof fn lemma_remove_addr_gone(peers: Seq<PeerView>, addr: Seq<char>)
    ensures
        !has_addr(remove_addr(peers, addr), addr),
    decreases peers.len(),
{
    if peers.len() > 0 {
        lemma_remove_addr_gone(peers.drop_last(), addr);
        let out = remove_addr(peers, addr);
        if has_addr(out, addr) {
            let j = choose|j: int| 0 <= j < out.len() && out[j].addr == addr;
            if peers.last().addr != addr {
                if j < out.len() - 1 {
                    assert(remove_addr(peers.drop_last(), addr)[j].addr == addr);
                }
            }
        }
    }
}

/// No entry of a registry survives `remove_eid` with its own endpoint id.
pub proof fn lemma_remove_eid_gone(peers: Seq<PeerView>, eid: Seq<char>)
    ensures
        !has_eid(remove_eid(peers, eid), eid),
    decreases peers.len(),
{
    if peers.len() > 0 {
        lemma_remove_eid_gone(peers.drop_last(), eid);
        let out = remove_eid(peers, eid);
        if has_eid(out, eid) {
            let j = choose|j: int| 0 <= j < out.len() && out[j].eid == Some(eid);
            if peers.last().eid != Some(eid) {
                if j < out.len() - 1 {
                    assert(remove_eid(peers.drop_last(), eid)[j].eid == Some(eid));
                }
            }
        }
    }
}

/// Peer lifecycle: a peer that is first encountered (upserted) and then
/// dropped by its endpoint id is absent from every later snapshot.
pub proof fn lemma_peer_lifecycle(peers: Seq<PeerView>, p: PeerView, eid: Seq<char>)
    ensures
        !has_eid(remove_eid(upsert_peer(peers, p), eid), eid),
{
    lemma_remove_eid_gone(upsert_peer(peers, p), eid);
}

} // verus!
