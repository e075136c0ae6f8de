//! BGP routes, session types and messages.

use vstd::prelude::*;
use crate::types::{AsId, Prefix, RouterId};

verus! {

/// The local preference of a route that carries none.
pub const DEFAULT_LOCAL_PREF: u32 = 100;

/// The multi-exit discriminator of a route that carries none.
pub const DEFAULT_MED: u32 = 0;

/// Mathematical content of a [`BgpRoute`].
pub struct RouteView {
    pub prefix: Prefix,
    pub as_path: Seq<AsId>,
    pub next_hop: RouterId,
    pub local_pref: Option<u32>,
    pub med: Option<u32>,
}

impl RouteView {
    /// The local preference, with the default standing in for an absent value.
    pub open spec fn local_pref_or_default(self) -> u32 {
        match self.local_pref {
            Some(x) => x,
            None => DEFAULT_LOCAL_PREF,
        }
    }

    /// The multi-exit discriminator, with the default standing in for an absent value.
    pub open spec fn med_or_default(self) -> u32 {
        match self.med {
            Some(x) => x,
            None => DEFAULT_MED,
        }
    }

    /// The same route with both optional attributes made explicit.
    pub open spec fn with_defaults(self) -> RouteView {
        RouteView {
            local_pref: Some(self.local_pref_or_default()),
            med: Some(self.med_or_default()),
            ..self
        }
    }

    /// Route equality: prefix, AS path, next hop and the defaulted optional
    /// attributes agree.
    pub open spec fn same_route(self, other: RouteView) -> bool {
        &&& self.prefix == other.prefix
        &&& self.as_path == other.as_path
        &&& self.next_hop == other.next_hop
        &&& self.local_pref_or_default() == other.local_pref_or_default()
        &&& self.med_or_default() == other.med_or_default()
    }
}

/// BGP route.
///
/// The following attributes are omitted:
/// - ORIGIN: assumed to be always set to IGP
/// - ATOMIC_AGGREGATE: not used
/// - AGGREGATOR: not used
#[derive(Debug)]
pub struct BgpRoute {
    pub prefix: Prefix,
    pub as_path: Vec<AsId>,
    pub next_hop: RouterId,
    pub local_pref: Option<u32>,
    pub med: Option<u32>,
}

impl View for BgpRoute {
    type V = RouteView;

    open spec fn view(&self) -> RouteView {
        RouteView {
            prefix: self.prefix,
            as_path: self.as_path@,
            next_hop: self.next_hop,
            local_pref: self.local_pref,
            med: self.med,
        }
    }
}

/// Copies an AS path element by element.
fn copy_as_path(path: &Vec<AsId>) -> (r: Vec<AsId>)
    ensures
        r@ == path@,
{
    let mut r: Vec<AsId> = Vec::new();
    let mut i: usize = 0;
    while i < path.len()
        invariant
            i <= path.len(),
            r@ == path@.subrange(0, i as int),
        decreases path.len() - i,
    {
        r.push(path[i]);
        assert(r@ =~= path@.subrange(0, i + 1));
        i = i + 1;
    }
    assert(path@.subrange(0, path.len() as int) =~= path@);
    r
}

/// Tells whether two AS paths hold the same AS numbers in the same order.
fn as_path_eq(a: &Vec<AsId>, b: &Vec<AsId>) -> (r: bool)
    ensures
        r == (a@ == b@),
{
    if a.len() != b.len() {
        return false;
    }
    let mut i: usize = 0;
    while i < a.len()
        invariant
            i <= a.len(),
            a.len() == b.len(),
            a@.subrange(0, i as int) == b@.subrange(0, i as int),
        decreases a.len() - i,
    {
        if a[i].0 != b[i].0 {
            assert(a@[i as int] != b@[i as int]);
            return false;
        }
        assert(a@.subrange(0, i + 1) =~= a@.subrange(0, i as int).push(a@[i as int]));
        assert(b@.subrange(0, i + 1) =~= b@.subrange(0, i as int).push(b@[i as int]));
        i = i + 1;
    }
    assert(a@.subrange(0, a.len() as int) =~= a@);
    assert(b@.subrange(0, b.len() as int) =~= b@);
    true
}

impl BgpRoute {
    /// Makes the defaults of the optional attributes explicit.
    pub fn apply_default(&mut self)
        ensures
            final(self)@ == old(self)@.with_defaults(),
    {
        self.local_pref = Some(
            match self.local_pref {
                Some(x) => x,
                None => DEFAULT_LOCAL_PREF,
            },
        );
        self.med = Some(
            match self.med {
                Some(x) => x,
                None => DEFAULT_MED,
            },
        );
    }

    /// A copy of the route with the defaults of the optional attributes made explicit.
    pub fn clone_default(&self) -> (r: Self)
        ensures
            r@ == self@.with_defaults(),
    {
        let mut r = self.clone();
        r.apply_default();
        r
    }
}

impl Clone for BgpRoute {
    fn clone(&self) -> (r: Self)
        ensures
            r@ == self@,
    {
        BgpRoute {
            prefix: self.prefix,
            as_path: copy_as_path(&self.as_path),
            next_hop: self.next_hop,
            local_pref: self.local_pref,
            med: self.med,
        }
    }
}

impl PartialEq for BgpRoute {
    fn eq(&self, other: &Self) -> (r: bool) {
        let lp_a: u32 = match self.local_pref { Some(x) => x, None => DEFAULT_LOCAL_PREF };
        let lp_b: u32 = match other.local_pref { Some(x) => x, None => DEFAULT_LOCAL_PREF };
        let med_a: u32 = match self.med { Some(x) => x, None => DEFAULT_MED };
        let med_b: u32 = match other.med { Some(x) => x, None => DEFAULT_MED };
        self.prefix.0 == other.prefix.0 && as_path_eq(&self.as_path, &other.as_path)
            && self.next_hop == other.next_hop && lp_a == lp_b && med_a == med_b
    }
}

impl vstd::std_specs::cmp::PartialEqSpecImpl for BgpRoute {
    open spec fn obeys_eq_spec() -> bool {
        true
    }

    open spec fn eq_spec(&self, other: &Self) -> bool {
        self@.same_route(other@)
    }
}

/// The kind of BGP session a router holds with a neighbor, as seen from the router.
#[derive(PartialEq, Eq, Structural, Debug, Clone, Copy)]
pub enum BgpSessionType {
    /// iBGP session with a peer or with a route reflector.
    IBgpPeer,
    /// iBGP session with a route-reflection client.
    IBgpClient,
    /// eBGP session with a router of another AS.
    EBgp,
}

impl BgpSessionType {
    /// The session leaves the AS.
    pub open spec fn spec_is_ebgp(&self) -> bool {
        *self == BgpSessionType::EBgp
    }

    /// The session stays inside of the AS.
    pub open spec fn spec_is_ibgp(&self) -> bool {
        *self != BgpSessionType::EBgp
    }

    /// Tells whether the session leaves the AS.
    #[verifier::when_used_as_spec(spec_is_ebgp)]
    pub fn is_ebgp(&self) -> (r: bool)
        ensures
            r == self.spec_is_ebgp(),
    {
        match self {
            Self::EBgp => true,
            _ => false,
        }
    }

    /// Tells whether the session stays inside of the AS.
    #[verifier::when_used_as_spec(spec_is_ibgp)]
    pub fn is_ibgp(&self) -> (r: bool)
        ensures
            r == self.spec_is_ibgp(),
    {
        !self.is_ebgp()
    }
}

/// Mathematical content of a [`BgpEvent`].
pub enum BgpEventView {
    Withdraw(Prefix),
    Update(RouteView),
}

/// BGP message.
#[derive(Debug)]
pub enum BgpEvent {
    /// The sender no longer offers a route for the prefix.
    Withdraw(Prefix),
    /// The sender offers this route.
    Update(BgpRoute),
}

impl View for BgpEvent {
    type V = BgpEventView;

    open spec fn view(&self) -> BgpEventView {
        match self {
            BgpEvent::Withdraw(p) => BgpEventView::Withdraw(*p),
            BgpEvent::Update(r) => BgpEventView::Update(r@),
        }
    }
}

impl Clone for BgpEvent {
    fn clone(&self) -> (r: Self)
        ensures
            r@ == self@,
    {
        match self {
            BgpEvent::Withdraw(p) => BgpEvent::Withdraw(*p),
            BgpEvent::Update(route) => BgpEvent::Update(route.clone()),
        }
    }
}

} // verus!
