//! The in-memory bundle store: packs keyed by bundle id, with insert,
//! membership test, removal and iteration.
use crate::bundle::{BundlePack, BundleView};
use vstd::prelude::*;

verus! {

/// True when some pack in the store carries the given bundle id.
pub open spec fn store_has_id(store: Seq<BundleView>, id: Seq<char>) -> bool {
    exists|i: int| 0 <= i < store.len() && store[i].id == id
}

/// How many packs in the store carry the given bundle id.
pub open spec fn count_id(store: Seq<BundleView>, id: Seq<char>) -> nat
    decreases store.len(),
{
    if store.len() == 0 {
        0
    } else if store.last().id == id {
        count_id(store.drop_last(), id) + 1
    } else {
        count_id(store.drop_last(), id)
    }
}

/// The store without the packs that carry the given bundle id.
pub open spec fn remove_id(store: Seq<BundleView>, id: Seq<char>) -> Seq<BundleView>
    decreases store.len(),
{
    if store.len() == 0 {
        Seq::empty()
    } else if store.last().id == id {
        remove_id(store.drop_last(), id)
    } else {
        remove_id(store.drop_last(), id).push(store.last())
    }
}

/// The store invariant: at most one pack per bundle id.
pub open spec fn ids_unique(store: Seq<BundleView>) -> bool {
    forall|i: int, j: int| 0 <= i < j < store.len() ==> store[i].id != store[j].id
}

/// A store that never held the id counts zero packs for it.
pub proof fn lemma_absent_count_zero(store: Seq<BundleView>, id: Seq<char>)
    requires
        !store_has_id(store, id),
    ensures
        count_id(store, id) == 0,
    decreases store.len(),
{
    if store.len() > 0 {
        assert(!store_has_id(store.drop_last(), id)) by {
            if store_has_id(store.drop_last(), id) {
                let j = choose|j: int| 0 <= j < store.drop_last().len() && store.drop_last()[j].id == id;
                assert(store[j].id == id);
            }
        }
        lemma_absent_count_zero(store.drop_last(), id);
        assert(store.last().id != id);
    }
}

/// Appending a pack raises the count of its id by one and keeps every other
/// count unchanged.
pub proof fn lemma_push_count(store: Seq<BundleView>, b: BundleView, id: Seq<char>)
    ensures
        b.id == id ==> count_id(store.push(b), id) == count_id(store, id) + 1,
        b.id != id ==> count_id(store.push(b), id) == count_id(store, id),
{
    assert(store.push(b).drop_last() =~= store);
}

/// The simple bundle store of the dispatch loop.
pub struct SimpleBundleStore {
    pub bundles: Vec<BundlePack>,
}

impl View for SimpleBundleStore {
    type V = Seq<BundleView>;

    open spec fn view(&self) -> Seq<BundleView> {
        self.bundles@.map_values(|p: BundlePack| p@)
    }
}

impl SimpleBundleStore {
    /// An empty store.
    pub fn new() -> (r: SimpleBundleStore)
        ensures
            r@ == Seq::<BundleView>::empty(),
    {
        let r = SimpleBundleStore { bundles: Vec::new() };
        proof {
            assert(r@ =~= Seq::<BundleView>::empty());
        }
        r
    }

    /// Whether a pack with this pack's bundle id is already held.
    pub fn has_item(&self, bp: &BundlePack) -> (r: bool)
        ensures
            r == store_has_id(self@, bp@.id),
    {
        let mut i: usize = 0;
        while i < self.bundles.len()
            invariant
                i <= self@.len(),
                forall|k: int| 0 <= k < i ==> self@[k].id != bp@.id,
            decreases self.bundles.len() - i,
        {
            if self.bundles[i].bundle.id.eq(&bp.bundle.id) {
                proof {
                    assert(self@[i as int].id == bp@.id);
                }
                return true;
            }
            i = i + 1;
        }
        proof {
            if store_has_id(self@, bp@.id) {
                let j = choose|j: int| 0 <= j < self@.len() && self@[j].id == bp@.id;
                assert(self@[j].id != bp@.id);
            }
        }
        false
    }

    /// Hold a pack; the caller is expected to have checked for duplicates.
    pub fn push(&mut self, bp: BundlePack)
        ensures
            final(self)@ == old(self)@.push(bp@),
    {
        let ghost pre = self@;
        self.bundles.push(bp);
        proof {
            assert(self@ =~= pre.push(bp@));
        }
    }

    /// Drop every pack with the given bundle id.
    pub fn remove(&mut self, bid: &String)
        ensures
            final(self)@ == remove_id(old(self)@, bid@),
    {
        let ghost pre = self@;
        let mut kept: Vec<BundlePack> = Vec::new();
        let mut i: usize = 0;
        while i < self.bundles.len()
            invariant
                i <= self@.len(),
                self@ == pre,
                kept@.map_values(|p: BundlePack| p@) == remove_id(pre.take(i as int), bid@),
            decreases self.bundles.len() - i,
        {
            let ghost prefix = pre.take(i + 1 as int);
            proof {
                assert(prefix.drop_last() =~= pre.take(i as int));
                assert(prefix.last() == pre[i as int]);
            }
            if !self.bundles[i].bundle.id.eq(bid) {
                let p = self.bundles[i].clone();
                kept.push(p);
            }
            proof {
                assert(kept@.map_values(|p: BundlePack| p@) =~= remove_id(prefix, bid@));
            }
            i = i + 1;
        }
        self.bundles = kept;
        proof {
            assert(pre.take(pre.len() as int) =~= pre);
        }
    }

    /// The packs currently held, in store order.
    pub fn iter(&self) -> (r: &Vec<BundlePack>)
        ensures
            r@.map_values(|p: BundlePack| p@) == self@,
    {
        &self.bundles
    }

    /// How many packs are held.
    pub fn len(&self) -> (r: usize)
        ensures
            r == self@.len(),
    {
        self.bundles.len()
    }
}

/// Once every pack with an id is removed, no pack with that id remains.
pub proof fn lemma_remove_id_gone(store: Seq<BundleView>, id: Seq<char>)
    ensures
        !store_has_id(remove_id(store, id), id),
    decreases store.len(),
{
    if store.len() > 0 {
        lemma_remove_id_gone(store.drop_last(), id);
        let out = remove_id(store, id);
        if store_has_id(out, id) {
            let j = choose|j: int| 0 <= j < out.len() && out[j].id == id;
            if store.last().id != id {
                if j < out.len() - 1 {
                    assert(remove_id(store.drop_last(), id)[j].id == id);
                }
            }
        }
    }
}

} // verus!
