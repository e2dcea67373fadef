//! Bundles and bundle packs as the routing core sees them: the identity,
//! the destination endpoint and the fragmentation flag, the only parts of
//! a bundle that forwarding decisions read.
use vstd::prelude::*;

verus! {

/// Mathematical image of a bundle: its id, its destination endpoint id and
/// whether it is a fragment.
#[verifier::ext_equal]
pub ghost struct BundleView {
    pub id: Seq<char>,
    pub destination: Seq<char>,
    pub fragment: bool,
}

/// A store-and-forward network message, reduced to what routing reads.
/// The id string is the bundle's identity, derived by the encoding layer
/// from source, destination, creation timestamp and sequence number.
pub struct Bundle {
    pub id: String,
    pub destination: String,
    pub fragment: bool,
}

impl View for Bundle {
    type V = BundleView;

    open spec fn view(&self) -> BundleView {
        BundleView { id: self.id@, destination: self.destination@, fragment: self.fragment }
    }
}

impl Bundle {
    pub fn new(id: String, destination: String, fragment: bool) -> (r: Bundle)
        ensures
            r@ == (BundleView { id: id@, destination: destination@, fragment: fragment }),
    {
        Bundle { id, destination, fragment }
    }

    pub fn has_fragmentation(&self) -> (r: bool)
        ensures
            r == self@.fragment,
    {
        self.fragment
    }
}

impl Clone for Bundle {
    fn clone(&self) -> (r: Self)
        ensures
            r@ == self@,
    {
        Bundle { id: self.id.clone(), destination: self.destination.clone(), fragment: self.fragment }
    }
}

/// A bundle held by the store together with routing-local metadata; the
/// pack's identity is its bundle's id.
pub struct BundlePack {
    pub bundle: Bundle,
}

impl View for BundlePack {
    type V = BundleView;

    open spec fn view(&self) -> BundleView {
        self.bundle@
    }
}

impl BundlePack {
    /// The bundle id that identifies this pack in the store.
    pub fn id(&self) -> (r: String)
        ensures
            r@ == self@.id,
    {
        self.bundle.id.clone()
    }
}

impl Clone for BundlePack {
    fn clone(&self) -> (r: Self)
        ensures
            r@ == self@,
    {
        BundlePack { bundle: self.bundle.clone() }
    }
}

impl From<Bundle> for BundlePack {
    fn from(bndl: Bundle) -> (r: BundlePack)
        ensures
            r@ == bndl@,
    {
        BundlePack { bundle: bndl }
    }
}

impl vstd::std_specs::convert::FromSpecImpl<Bundle> for BundlePack {
    open spec fn obeys_from_spec() -> bool {
        true
    }

    open spec fn from_spec(bndl: Bundle) -> BundlePack {
        BundlePack { bundle: bndl }
    }
}

} // verus!
