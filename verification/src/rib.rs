//! Entries of the routing information bases, and the order of the BGP decision process.

use vstd::prelude::*;
use core::cmp::Ordering;
use crate::bgp::{BgpRoute, BgpSessionType, RouteView};
use crate::types::{IgpCost, RouterId};

verus! {

/// Mathematical content of a [`RIBEntry`].
pub struct RibEntryView {
    pub route: RouteView,
    pub from_type: BgpSessionType,
    pub from_id: RouterId,
    pub igp_cost: Option<IgpCost>,
}

impl RibEntryView {
    /// Entry equality: the routes are equal and were learned from the same neighbor.
    pub open spec fn same_entry(self, other: RibEntryView) -> bool {
        self.route.same_route(other.route) && self.from_id == other.from_id
    }

    /// The first four criteria of the decision order (local preference, AS path
    /// length, MED, session kind) do not separate the two entries.
    pub open spec fn attributes_tie(self, other: RibEntryView) -> bool {
        &&& self.route.local_pref_or_default() == other.route.local_pref_or_default()
        &&& self.route.as_path.len() == other.route.as_path.len()
        &&& self.route.med_or_default() == other.route.med_or_default()
        &&& self.from_type.is_ebgp() == other.from_type.is_ebgp()
    }

    /// The decision order: `self` is strictly preferred over `other`.
    ///
    /// Earlier criteria dominate: higher local preference, shorter AS path, lower
    /// MED, eBGP over iBGP, lower IGP cost, lower next hop, lower neighbor id.
    /// Entries whose first four criteria tie are separated only when both carry an
    /// IGP cost.
    pub open spec fn preferred_over(self, other: RibEntryView) -> bool {
        if self.route.local_pref_or_default() != other.route.local_pref_or_default() {
            self.route.local_pref_or_default() > other.route.local_pref_or_default()
        } else if self.route.as_path.len() != other.route.as_path.len() {
            self.route.as_path.len() < other.route.as_path.len()
        } else if self.route.med_or_default() != other.route.med_or_default() {
            self.route.med_or_default() < other.route.med_or_default()
        } else if self.from_type.is_ebgp() != other.from_type.is_ebgp() {
            self.from_type.is_ebgp()
        } else {
            match (self.igp_cost, other.igp_cost) {
                (Some(a), Some(b)) => {
                    if a != b {
                        a < b
                    } else if self.route.next_hop != other.route.next_hop {
                        self.route.next_hop < other.route.next_hop
                    } else {
                        self.from_id < other.from_id
                    }
                },
                _ => false,
            }
        }
    }

    /// All seven criteria of the decision order tie.
    pub open spec fn ranks_equal(self, other: RibEntryView) -> bool {
        &&& self.attributes_tie(other)
        &&& self.igp_cost is Some
        &&& self.igp_cost == other.igp_cost
        &&& self.route.next_hop == other.route.next_hop
        &&& self.from_id == other.from_id
    }
}

/// The content of an optional entry.
pub open spec fn entry_view(e: Option<RIBEntry>) -> Option<RibEntryView> {
    match e {
        Some(e) => Some(e@),
        None => None,
    }
}

/// The contents of a list of entries.
pub open spec fn entries_view(v: Seq<RIBEntry>) -> Seq<RibEntryView> {
    v.map_values(|e: RIBEntry| e@)
}

/// BGP RIB table entry.
#[derive(Debug)]
pub struct RIBEntry {
    /// the actual bgp route
    pub route: BgpRoute,
    /// the type of session, from which the route was learned
    pub from_type: BgpSessionType,
    /// the client from which the route was learned
    pub from_id: RouterId,
    /// the igp cost to the next_hop
    pub igp_cost: Option<IgpCost>,
}

impl View for RIBEntry {
    type V = RibEntryView;

    open spec fn view(&self) -> RibEntryView {
        RibEntryView {
            route: self.route@,
            from_type: self.from_type,
            from_id: self.from_id,
            igp_cost: self.igp_cost,
        }
    }
}

impl Clone for RIBEntry {
    fn clone(&self) -> (r: Self)
        ensures
            r@ == self@,
    {
        RIBEntry {
            route: self.route.clone(),
            from_type: self.from_type,
            from_id: self.from_id,
            igp_cost: self.igp_cost,
        }
    }
}

impl RIBEntry {
    /// Tells whether this entry is strictly preferred over `other` by the decision order.
    pub fn preferred(&self, other: &RIBEntry) -> (r: bool)
        ensures
            r == self@.preferred_over(other@),
    {
        let lp_a: u32 = match self.route.local_pref { Some(x) => x, None => crate::bgp::DEFAULT_LOCAL_PREF };
        let lp_b: u32 = match other.route.local_pref { Some(x) => x, None => crate::bgp::DEFAULT_LOCAL_PREF };
        if lp_a != lp_b {
            return lp_a > lp_b;
        }
        let len_a: usize = self.route.as_path.len();
        let len_b: usize = other.route.as_path.len();
        if len_a != len_b {
            return len_a < len_b;
        }
        let med_a: u32 = match self.route.med { Some(x) => x, None => crate::bgp::DEFAULT_MED };
        let med_b: u32 = match other.route.med { Some(x) => x, None => crate::bgp::DEFAULT_MED };
        if med_a != med_b {
            return med_a < med_b;
        }
        if self.from_type.is_ebgp() != other.from_type.is_ebgp() {
            return self.from_type.is_ebgp();
        }
        match (self.igp_cost, other.igp_cost) {
            (Some(a), Some(b)) => {
                if a != b {
                    a < b
                } else if self.route.next_hop != other.route.next_hop {
                    self.route.next_hop < other.route.next_hop
                } else {
                    self.from_id < other.from_id
                }
            },
            _ => false,
        }
    }

    /// Tells whether all seven criteria of the decision order tie.
    pub fn ranks_equal(&self, other: &RIBEntry) -> (r: bool)
        ensures
            r == self@.ranks_equal(other@),
    {
        let lp_a: u32 = match self.route.local_pref { Some(x) => x, None => crate::bgp::DEFAULT_LOCAL_PREF };
        let lp_b: u32 = match other.route.local_pref { Some(x) => x, None => crate::bgp::DEFAULT_LOCAL_PREF };
        let med_a: u32 = match self.route.med { Some(x) => x, None => crate::bgp::DEFAULT_MED };
        let med_b: u32 = match other.route.med { Some(x) => x, None => crate::bgp::DEFAULT_MED };
        let costs_tie: bool = match (self.igp_cost, other.igp_cost) {
            (Some(a), Some(b)) => a == b,
            _ => false,
        };
        lp_a == lp_b && self.route.as_path.len() == other.route.as_path.len() && med_a == med_b
            && self.from_type.is_ebgp() == other.from_type.is_ebgp() && costs_tie
            && self.route.next_hop == other.route.next_hop && self.from_id == other.from_id
    }
}

impl PartialEq for RIBEntry {
    fn eq(&self, other: &Self) -> (r: bool) {
        self.route == other.route && self.from_id == other.from_id
    }
}

impl vstd::std_specs::cmp::PartialEqSpecImpl for RIBEntry {
    open spec fn obeys_eq_spec() -> bool {
        true
    }

    open spec fn eq_spec(&self, other: &Self) -> bool {
        self@.same_entry(other@)
    }
}

impl PartialOrd for RIBEntry {
    fn partial_cmp(&self, other: &Self) -> (r: Option<Ordering>) {
        if self.preferred(other) {
            Some(Ordering::Greater)
        } else if other.preferred(self) {
            Some(Ordering::Less)
        } else if self.ranks_equal(other) {
            Some(Ordering::Equal)
        } else {
            None
        }
    }
}

impl vstd::std_specs::cmp::PartialOrdSpecImpl for RIBEntry {
    open spec fn obeys_partial_cmp_spec() -> bool {
        true
    }

    open spec fn partial_cmp_spec(&self, other: &Self) -> Option<Ordering> {
        if self@.preferred_over(other@) {
            Some(Ordering::Greater)
        } else if other@.preferred_over(self@) {
            Some(Ordering::Less)
        } else if self@.ranks_equal(other@) {
            Some(Ordering::Equal)
        } else {
            None
        }
    }
}

} // verus!
